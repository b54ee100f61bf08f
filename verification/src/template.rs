//! The template renderer: substitutes named fields into literal text.
//!
//! The template language is intentionally minimal: a `{` opens a
//! placeholder, the characters up to the next `}` are a field name, and the
//! placeholder is replaced by the field's value from the render context.
//! Everything else is literal and passes through unchanged. A placeholder
//! that is never closed, or that holds a nested `{`, is malformed; a
//! placeholder whose name has no field in the context is a missing field.
//! Rendering is a pure text-to-text transform: on any failure nothing is
//! produced at all.

use vstd::prelude::*;
use crate::text::{chars_vec, push_chars, string_from_chars};

verus! {

/// Why a render call failed, fatally for the whole call.
#[derive(Clone, Copy, Debug, PartialEq, Eq, Structural)]
pub enum TemplateError {
    /// A placeholder names a field the context does not hold.
    MissingField,
    /// Placeholder syntax is unterminated or holds a nested `{`.
    MalformedTemplate,
}

/// A flat mapping from field name to substituted value.
pub struct RenderContext {
    pub fields: Vec<(String, String)>,
}

impl View for RenderContext {
    type V = Seq<(Seq<char>, Seq<char>)>;

    open spec fn view(&self) -> Seq<(Seq<char>, Seq<char>)> {
        self.fields@.map_values(|p: (String, String)| (p.0@, p.1@))
    }
}

impl RenderContext {
    /// An empty context.
    pub fn new() -> (r: RenderContext)
        ensures
            r@ == Seq::<(Seq<char>, Seq<char>)>::empty(),
    {
        let r = RenderContext { fields: Vec::new() };
        proof {
            assert(r@ =~= Seq::<(Seq<char>, Seq<char>)>::empty());
        }
        r
    }

    /// Adds a field at the end of the context.
    pub fn add(&mut self, name: String, value: String)
        ensures
            final(self)@ == old(self)@.push((name@, value@)),
    {
        let ghost before = self@;
        self.fields.push((name, value));
        proof {
            assert(self@ =~= before.push((name@, value@)));
        }
    }
}

/// The value of the first field named `name`, if any.
pub open spec fn ctx_get(c: Seq<(Seq<char>, Seq<char>)>, name: Seq<char>) -> Option<Seq<char>>
    decreases c.len(),
{
    if c.len() == 0 {
        None
    } else if c[0].0 == name {
        Some(c[0].1)
    } else {
        ctx_get(c.drop_first(), name)
    }
}

/// Rendering from position `i` onward, outside any placeholder.
pub open spec fn render_from(
    t: Seq<char>,
    c: Seq<(Seq<char>, Seq<char>)>,
    i: int,
) -> Result<Seq<char>, TemplateError>
    decreases t.len() - i, 1int,
{
    if i < 0 || i >= t.len() {
        Ok(Seq::empty())
    } else if t[i] == '{' {
        ph_from(t, c, i + 1, Seq::empty())
    } else {
        match render_from(t, c, i + 1) {
            Ok(r) => Ok(seq![t[i]] + r),
            Err(e) => Err(e),
        }
    }
}

/// Rendering from position `i` onward, inside a placeholder whose name so
/// far is `name`.
pub open spec fn ph_from(
    t: Seq<char>,
    c: Seq<(Seq<char>, Seq<char>)>,
    i: int,
    name: Seq<char>,
) -> Result<Seq<char>, TemplateError>
    decreases t.len() - i, 0int,
{
    if i < 0 || i >= t.len() {
        Err(TemplateError::MalformedTemplate)
    } else if t[i] == '}' {
        match ctx_get(c, name) {
            None => Err(TemplateError::MissingField),
            Some(v) => match render_from(t, c, i + 1) {
                Ok(r) => Ok(v + r),
                Err(e) => Err(e),
            },
        }
    } else if t[i] == '{' {
        Err(TemplateError::MalformedTemplate)
    } else {
        ph_from(t, c, i + 1, name.push(t[i]))
    }
}

/// What rendering template `t` under context `c` produces.
pub open spec fn spec_render(t: Seq<char>, c: Seq<(Seq<char>, Seq<char>)>) -> Result<
    Seq<char>,
    TemplateError,
> {
    render_from(t, c, 0)
}

/// The rendered text so far combined with what rendering the rest gives.
pub open spec fn render_acc(
    out: Seq<char>,
    rest: Result<Seq<char>, TemplateError>,
) -> Result<Seq<char>, TemplateError> {
    match rest {
        Ok(r) => Ok(out + r),
        Err(e) => Err(e),
    }
}

/// Scanning over name characters only extends the accumulated name.
proof fn lemma_ph_advance(
    t: Seq<char>,
    c: Seq<(Seq<char>, Seq<char>)>,
    j: int,
    end: int,
    name: Seq<char>,
)
    requires
        0 <= j <= end < t.len(),
        forall|k: int| j <= k < end ==> t[k] != '{' && t[k] != '}',
    ensures
        ph_from(t, c, j, name) == ph_from(t, c, end, name + t.subrange(j, end)),
    decreases end - j,
{
    if j == end {
        assert(name + t.subrange(j, j) =~= name);
    } else {
        lemma_ph_advance(t, c, j + 1, end, name.push(t[j]));
        assert(name.push(t[j]) + t.subrange(j + 1, end) =~= name + t.subrange(j, end));
    }
}

/// A placeholder that reaches a `{` or the end of the template before any
/// `}` is malformed, whatever name was accumulated.
proof fn lemma_ph_malformed(
    t: Seq<char>,
    c: Seq<(Seq<char>, Seq<char>)>,
    j: int,
    stop: int,
    name: Seq<char>,
)
    requires
        0 <= j <= stop <= t.len(),
        forall|k: int| j <= k < stop ==> t[k] != '{' && t[k] != '}',
        stop == t.len() || t[stop] == '{',
    ensures
        ph_from(t, c, j, name) == Err::<Seq<char>, TemplateError>(TemplateError::MalformedTemplate),
    decreases stop - j,
{
    if j < stop {
        lemma_ph_malformed(t, c, j + 1, stop, name.push(t[j]));
    }
}

/// Collects the characters from `start` up to the first `}`, `{` or the
/// end of the template.
fn scan_name(tv: &Vec<char>, start: usize) -> (r: (bool, Vec<char>, usize))
    requires
        start <= tv@.len(),
    ensures
        ({
            let (found, nm, pos) = r;
            &&& start <= pos <= tv@.len()
            &&& nm@ == tv@.subrange(start as int, pos as int)
            &&& forall|k: int| start <= k < pos ==> tv@[k] != '{' && tv@[k] != '}'
            &&& (found ==> pos < tv@.len() && tv@[pos as int] == '}')
            &&& (!found ==> pos == tv@.len() || tv@[pos as int] == '{')
        }),
{
    let n: usize = tv.len();
    let mut j: usize = start;
    let mut nm: Vec<char> = Vec::new();
    proof {
        assert(nm@ =~= tv@.subrange(start as int, start as int));
    }
    while j < n && tv[j] != '}' && tv[j] != '{'
        invariant
            start <= j <= n,
            n == tv@.len(),
            nm@ == tv@.subrange(start as int, j as int),
            forall|k: int| start <= k < j ==> tv@[k] != '{' && tv@[k] != '}',
        decreases n - j,
    {
        nm.push(tv[j]);
        proof {
            assert(nm@ =~= tv@.subrange(start as int, j as int + 1));
        }
        j = j + 1;
    }
    let found = j < n && tv[j] == '}';
    (found, nm, j)
}

/// Looks a collected name up in the context, returning the first match.
fn lookup<'a>(ctx: &'a RenderContext, nm: &Vec<char>) -> (r: Option<&'a String>)
    ensures
        match r {
            Some(v) => ctx_get(ctx@, nm@) == Some(v@),
            None => ctx_get(ctx@, nm@) is None,
        },
{
    let mut i: usize = 0;
    proof {
        assert(ctx@.skip(0int) =~= ctx@);
    }
    while i < ctx.fields.len()
        invariant
            i <= ctx@.len(),
            ctx@.len() == ctx.fields@.len(),
            ctx_get(ctx@, nm@) == ctx_get(ctx@.skip(i as int), nm@),
            forall|k: int| 0 <= k < ctx@.len() ==> ctx@[k] == (ctx.fields@[k].0@, ctx.fields@[k].1@),
        decreases ctx@.len() - i,
    {
        proof {
            assert(ctx@.skip(i as int)[0] == ctx@[i as int]);
            assert(ctx@.skip(i as int).drop_first() =~= ctx@.skip(i as int + 1));
        }
        if str_eq_chars(ctx.fields[i].0.as_str(), nm) {
            return Some(&ctx.fields[i].1);
        }
        i = i + 1;
    }
    proof {
        assert(ctx@.skip(ctx@.len() as int) =~= Seq::<(Seq<char>, Seq<char>)>::empty());
    }
    None
}

/// Whether a string slice holds exactly the given characters.
fn str_eq_chars(s: &str, v: &Vec<char>) -> (r: bool)
    ensures
        r == (s@ == v@),
{
    let n: usize = s.unicode_len();
    if n != v.len() {
        return false;
    }
    let mut i: usize = 0;
    while i < n
        invariant
            i <= n,
            n == s@.len(),
            n == v@.len(),
            forall|k: int| 0 <= k < i ==> s@[k] == v@[k],
        decreases n - i,
    {
        if s.get_char(i) != v[i] {
            return false;
        }
        i = i + 1;
    }
    proof {
        assert(s@ =~= v@);
    }
    true
}

/// Renders a template under a context: literal text passes through,
/// each `{name}` placeholder becomes the context's value for `name`.
pub fn render(template: &str, ctx: &RenderContext) -> (r: Result<String, TemplateError>)
    ensures
        r is Ok ==> spec_render(template@, ctx@) == Ok::<Seq<char>, TemplateError>(r->Ok_0@),
        r is Err ==> spec_render(template@, ctx@) == Err::<Seq<char>, TemplateError>(r->Err_0),
{
    let tv = chars_vec(template);
    let n: usize = tv.len();
    let mut out: Vec<char> = Vec::new();
    let mut i: usize = 0;
    proof {
        assert(out@ + spec_render(template@, ctx@)->Ok_0 =~= spec_render(template@, ctx@)->Ok_0);
    }
    while i < n
        invariant
            i <= n,
            n == tv@.len(),
            tv@ == template@,
            render_acc(out@, render_from(template@, ctx@, i as int)) == spec_render(
                template@,
                ctx@,
            ),
        decreases n - i,
    {
        let ch = tv[i];
        if ch != '{' {
            let ghost prev = out@;
            out.push(ch);
            proof {
                let rest = render_from(template@, ctx@, i as int + 1);
                if rest is Ok {
                    assert(prev + (seq![ch] + rest->Ok_0) =~= out@ + rest->Ok_0);
                }
            }
            i = i + 1;
        } else {
            let (found, nm, pos) = scan_name(&tv, i + 1);
            if !found {
                proof {
                    lemma_ph_malformed(
                        template@,
                        ctx@,
                        i as int + 1,
                        pos as int,
                        Seq::<char>::empty(),
                    );
                }
                return Err(TemplateError::MalformedTemplate);
            }
            proof {
                lemma_ph_advance(template@, ctx@, i as int + 1, pos as int, Seq::<char>::empty());
                assert(Seq::<char>::empty() + template@.subrange(i as int + 1, pos as int) =~= nm@);
            }
            match lookup(ctx, &nm) {
                None => {
                    return Err(TemplateError::MissingField);
                },
                Some(vs) => {
                    let vchars = chars_vec(vs.as_str());
                    let ghost prev = out@;
                    push_chars(&mut out, &vchars);
                    proof {
                        let rest = render_from(template@, ctx@, pos as int + 1);
                        if rest is Ok {
                            assert(prev + (vchars@ + rest->Ok_0) =~= out@ + rest->Ok_0);
                        }
                    }
                    i = pos + 1;
                },
            }
        }
    }
    proof {
        assert(out@ + Seq::<char>::empty() =~= out@);
    }
    let s = string_from_chars(&out);
    Ok(s)
}

/// Rendering a template with no `{` at all returns it unchanged, under any
/// context: literal text round-trips.
pub proof fn lemma_render_literal(t: Seq<char>, c: Seq<(Seq<char>, Seq<char>)>)
    requires
        forall|k: int| 0 <= k < t.len() ==> t[k] != '{',
    ensures
        spec_render(t, c) == Ok::<Seq<char>, TemplateError>(t),
{
    lemma_render_literal_from(t, c, 0);
    assert(t.skip(0) =~= t);
}

proof fn lemma_render_literal_from(t: Seq<char>, c: Seq<(Seq<char>, Seq<char>)>, i: int)
    requires
        0 <= i <= t.len(),
        forall|k: int| 0 <= k < t.len() ==> t[k] != '{',
    ensures
        render_from(t, c, i) == Ok::<Seq<char>, TemplateError>(t.skip(i)),
    decreases t.len() - i,
{
    if i >= t.len() {
        assert(t.skip(i) =~= Seq::<char>::empty());
    } else {
        lemma_render_literal_from(t, c, i + 1);
        assert(seq![t[i]] + t.skip(i + 1) =~= t.skip(i));
    }
}

/// The field names the template references, in order of appearance.
pub open spec fn placeholder_refs(t: Seq<char>) -> Seq<Seq<char>> {
    refs_from(t, 0)
}

/// The names referenced from position `i` onward, outside any placeholder.
pub open spec fn refs_from(t: Seq<char>, i: int) -> Seq<Seq<char>>
    decreases t.len() - i, 1int,
{
    if i < 0 || i >= t.len() {
        Seq::empty()
    } else if t[i] == '{' {
        refs_ph(t, i + 1, Seq::empty())
    } else {
        refs_from(t, i + 1)
    }
}

/// The names referenced from position `i` onward, inside a placeholder
/// whose name so far is `name`.
pub open spec fn refs_ph(t: Seq<char>, i: int, name: Seq<char>) -> Seq<Seq<char>>
    decreases t.len() - i, 0int,
{
    if i < 0 || i >= t.len() {
        Seq::empty()
    } else if t[i] == '}' {
        seq![name] + refs_from(t, i + 1)
    } else if t[i] == '{' {
        Seq::empty()
    } else {
        refs_ph(t, i + 1, name.push(t[i]))
    }
}

/// A successful render has a field for every referenced placeholder.
/// Contrapositive: a template that references a field absent from the
/// context never renders; it fails with a `TemplateError`.
pub proof fn lemma_render_ok_fields_present(t: Seq<char>, c: Seq<(Seq<char>, Seq<char>)>)
    requires
        spec_render(t, c) is Ok,
    ensures
        forall|k: int|
            0 <= k < placeholder_refs(t).len() ==> ctx_get(
                c,
                #[trigger] placeholder_refs(t)[k],
            ) is Some,
{
    lemma_refs_from_present(t, c, 0);
}

proof fn lemma_refs_from_present(t: Seq<char>, c: Seq<(Seq<char>, Seq<char>)>, i: int)
    requires
        render_from(t, c, i) is Ok,
    ensures
        forall|k: int|
            0 <= k < refs_from(t, i).len() ==> ctx_get(c, #[trigger] refs_from(t, i)[k]) is Some,
    decreases t.len() - i, 1int,
{
    if i < 0 || i >= t.len() {
    } else if t[i] == '{' {
        lemma_refs_ph_present(t, c, i + 1, Seq::empty());
    } else {
        lemma_refs_from_present(t, c, i + 1);
    }
}

proof fn lemma_refs_ph_present(t: Seq<char>, c: Seq<(Seq<char>, Seq<char>)>, i: int, name: Seq<char>)
    requires
        ph_from(t, c, i, name) is Ok,
    ensures
        forall|k: int|
            0 <= k < refs_ph(t, i, name).len() ==> ctx_get(
                c,
                #[trigger] refs_ph(t, i, name)[k],
            ) is Some,
    decreases t.len() - i, 0int,
{
    if i < 0 || i >= t.len() {
    } else if t[i] == '}' {
        lemma_refs_from_present(t, c, i + 1);
        assert forall|k: int| 0 <= k < refs_ph(t, i, name).len() implies ctx_get(
            c,
            #[trigger] refs_ph(t, i, name)[k],
        ) is Some by {
            if k == 0 {
                assert(refs_ph(t, i, name)[0] == name);
            } else {
                assert(refs_ph(t, i, name)[k] == refs_from(t, i + 1)[k - 1]);
            }
        }
    } else if t[i] == '{' {
    } else {
        lemma_refs_ph_present(t, c, i + 1, name.push(t[i]));
    }
}

/// A template that references a field the context does not hold fails to
/// render, with a `TemplateError`.
pub proof fn lemma_missing_field_fails(t: Seq<char>, c: Seq<(Seq<char>, Seq<char>)>, k: int)
    requires
        0 <= k < placeholder_refs(t).len(),
        ctx_get(c, placeholder_refs(t)[k]) is None,
    ensures
        spec_render(t, c) is Err,
{
    if spec_render(t, c) is Ok {
        lemma_render_ok_fields_present(t, c);
    }
}

} // verus!
