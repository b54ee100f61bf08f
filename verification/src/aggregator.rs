//! Aggregator synchronization: rewriting the bounded lesson block of the
//! main lecture document.
//!
//! The document holds a block delimited by a start sentinel line
//! `% start lessons` and an end sentinel `    % end lessons`; between them
//! stand only generated lines of the exact shape `    \input{les<N>.tex}`.
//! Synchronizing replaces the generated lines with one per known sequence
//! number, in the order given, and leaves every other character of the
//! document untouched. The block is located by scanning for the first
//! start sentinel, then over generated lines to the end sentinel; if that
//! fails the document is corrupt and the call fails, never silently.

use vstd::prelude::*;
use crate::text::{is_digit, is_digit_exec, dec_rep, chars_vec, push_chars, push_dec,
    string_from_chars, lemma_dec_rep_digits};

verus! {

/// Why a synchronization call failed.
#[derive(Clone, Copy, Debug, PartialEq, Eq, Structural)]
pub enum AggregatorError {
    /// The sentinel pair could not be located: the aggregator document is
    /// corrupt or was made from an incompatible template.
    BlockNotFound,
}

/// The start sentinel, with the newline that ends its line.
pub open spec fn start_sentinel() -> Seq<char> {
    "% start lessons\n"@
}

/// The end sentinel, indented like the generated lines.
pub open spec fn end_sentinel() -> Seq<char> {
    "    % end lessons"@
}

/// What a generated line holds before the sequence number.
pub open spec fn line_head() -> Seq<char> {
    "    \\input{les"@
}

/// What a generated line holds after the sequence number.
pub open spec fn line_tail() -> Seq<char> {
    ".tex}\n"@
}

/// The generated reference line for one sequence number.
pub open spec fn gen_line(n: u32) -> Seq<char> {
    line_head() + dec_rep(n as nat) + line_tail()
}

/// The generated block: one reference line per number, in order.
pub open spec fn gen_block(ns: Seq<u32>) -> Seq<char>
    decreases ns.len(),
{
    if ns.len() == 0 {
        Seq::empty()
    } else {
        gen_line(ns[0]) + gen_block(ns.drop_first())
    }
}

/// Whether `pat` occurs in `s` starting at position `i`.
pub open spec fn matches_at(s: Seq<char>, i: int, pat: Seq<char>) -> bool {
    &&& 0 <= i
    &&& i + pat.len() <= s.len()
    &&& s.subrange(i, i + pat.len()) == pat
}

/// The position of the first start sentinel at or after `i`.
pub open spec fn find_start_from(s: Seq<char>, i: int) -> Option<int>
    decreases s.len() - i,
    when 0 <= i
{
    if i >= s.len() {
        None
    } else if matches_at(s, i, start_sentinel()) {
        Some(i)
    } else {
        find_start_from(s, i + 1)
    }
}

/// How many consecutive digits stand at position `i`.
pub open spec fn digit_run(s: Seq<char>, i: int) -> nat
    decreases s.len() - i,
    when i >= 0
{
    if 0 <= i < s.len() && is_digit(s[i]) {
        1 + digit_run(s, i + 1)
    } else {
        0
    }
}

/// Whether a generated reference line stands at position `i`.
pub open spec fn line_at(s: Seq<char>, i: int) -> bool {
    &&& matches_at(s, i, line_head())
    &&& digit_run(s, i + line_head().len()) >= 1
    &&& matches_at(s, i + line_head().len() + digit_run(s, i + line_head().len()), line_tail())
}

/// The length of the generated line at position `i`.
pub open spec fn line_len(s: Seq<char>, i: int) -> int {
    line_head().len() + digit_run(s, i + line_head().len()) + line_tail().len() as int
}

/// The position of the end sentinel, reached from `i` over generated lines
/// only; `None` when anything else stands in the way.
pub open spec fn block_end_from(s: Seq<char>, i: int) -> Option<int>
    decreases s.len() - i,
    when 0 <= i <= s.len()
{
    if !(0 <= i <= s.len()) {
        None
    } else if matches_at(s, i, end_sentinel()) {
        Some(i)
    } else if line_at(s, i) {
        block_end_from(s, i + line_len(s, i))
    } else {
        None
    }
}

/// What synchronizing a document with the given numbers produces: the text
/// before and including the start sentinel, the regenerated block, then the
/// end sentinel and everything after it, all unchanged; `None` when the
/// sentinel pair cannot be located.
pub open spec fn sync_spec(doc: Seq<char>, ns: Seq<u32>) -> Option<Seq<char>> {
    match find_start_from(doc, 0) {
        None => None,
        Some(i) => match block_end_from(doc, i + start_sentinel().len()) {
            None => None,
            Some(j) => Some(
                doc.subrange(0, i) + start_sentinel() + gen_block(ns) + doc.subrange(
                    j,
                    doc.len() as int,
                ),
            ),
        },
    }
}

/// Whether `pat` occurs at position `i`, checked character by character.
fn matches_at_exec(s: &Vec<char>, i: usize, pat: &Vec<char>) -> (r: bool)
    ensures
        r == matches_at(s@, i as int, pat@),
{
    if i > s.len() || s.len() - i < pat.len() {
        return false;
    }
    let mut k: usize = 0;
    while k < pat.len()
        invariant
            k <= pat@.len(),
            i + pat@.len() <= s@.len(),
            s@.len() <= usize::MAX,
            forall|m: int| 0 <= m < k ==> s@[i + m] == pat@[m],
        decreases pat@.len() - k,
    {
        if s[i + k] != pat[k] {
            proof {
                assert(s@.subrange(i as int, i + pat@.len())[k as int] != pat@[k as int]);
            }
            return false;
        }
        k = k + 1;
    }
    proof {
        assert(s@.subrange(i as int, i + pat@.len()) =~= pat@);
    }
    true
}

/// The first occurrence of the start sentinel.
fn find_start(s: &Vec<char>, pat: &Vec<char>) -> (r: Option<usize>)
    requires
        pat@ == start_sentinel(),
    ensures
        match r {
            Some(i) => find_start_from(s@, 0) == Some(i as int),
            None => find_start_from(s@, 0) is None,
        },
{
    let mut k: usize = 0;
    while k < s.len()
        invariant
            k <= s@.len(),
            pat@ == start_sentinel(),
            find_start_from(s@, 0) == find_start_from(s@, k as int),
        decreases s@.len() - k,
    {
        if matches_at_exec(s, k, pat) {
            return Some(k);
        }
        proof {
            assert(find_start_from(s@, k as int) == find_start_from(s@, k as int + 1));
        }
        k = k + 1;
    }
    None
}

/// The number of consecutive digits at position `i`.
fn digit_run_exec(s: &Vec<char>, i: usize) -> (d: usize)
    requires
        i <= s@.len(),
    ensures
        d == digit_run(s@, i as int),
        i + d <= s@.len(),
{
    let mut j: usize = i;
    while j < s.len() && is_digit_exec(s[j])
        invariant
            i <= j <= s@.len(),
            digit_run(s@, i as int) == j - i + digit_run(s@, j as int),
        decreases s@.len() - j,
    {
        proof {
            assert(digit_run(s@, j as int) == 1 + digit_run(s@, j as int + 1));
        }
        j = j + 1;
    }
    proof {
        assert(digit_run(s@, j as int) == 0);
    }
    j - i
}

/// Walks from the start of the block over generated lines to the end
/// sentinel.
fn block_end(
    s: &Vec<char>,
    i: usize,
    endp: &Vec<char>,
    headp: &Vec<char>,
    tailp: &Vec<char>,
) -> (r: Option<usize>)
    requires
        i <= s@.len(),
        endp@ == end_sentinel(),
        headp@ == line_head(),
        tailp@ == line_tail(),
    ensures
        match r {
            Some(j) => block_end_from(s@, i as int) == Some(j as int),
            None => block_end_from(s@, i as int) is None,
        },
{
    let n: usize = s.len();
    let mut cur: usize = i;
    loop
        invariant
            cur <= s@.len(),
            n == s@.len(),
            endp@ == end_sentinel(),
            headp@ == line_head(),
            tailp@ == line_tail(),
            block_end_from(s@, i as int) == block_end_from(s@, cur as int),
        decreases s@.len() - cur,
    {
        if matches_at_exec(s, cur, endp) {
            return Some(cur);
        }
        if !matches_at_exec(s, cur, headp) {
            return None;
        }
        let d = digit_run_exec(s, cur + headp.len());
        if d == 0 {
            return None;
        }
        if !matches_at_exec(s, cur + headp.len() + d, tailp) {
            return None;
        }
        proof {
            assert(line_at(s@, cur as int));
            assert(block_end_from(s@, cur as int) == block_end_from(
                s@,
                cur as int + line_len(s@, cur as int),
            ));
        }
        cur = cur + headp.len() + d + tailp.len();
    }
}

/// Splitting a number list splits its generated block.
pub proof fn lemma_gen_block_append(a: Seq<u32>, b: Seq<u32>)
    ensures
        gen_block(a + b) == gen_block(a) + gen_block(b),
    decreases a.len(),
{
    if a.len() == 0 {
        assert(a + b =~= b);
        assert(gen_block(a) + gen_block(b) =~= gen_block(b));
    } else {
        lemma_gen_block_append(a.drop_first(), b);
        assert((a + b).drop_first() =~= a.drop_first() + b);
        assert((a + b)[0] == a[0]);
        assert(gen_line(a[0]) + (gen_block(a.drop_first()) + gen_block(b)) =~= (gen_line(a[0])
            + gen_block(a.drop_first())) + gen_block(b));
    }
}

/// Appends the generated block for `nums` to `out`.
fn push_block(out: &mut Vec<char>, nums: &Vec<u32>, headp: &Vec<char>, tailp: &Vec<char>)
    requires
        headp@ == line_head(),
        tailp@ == line_tail(),
    ensures
        final(out)@ == old(out)@ + gen_block(nums@),
{
    let mut k: usize = 0;
    proof {
        assert(gen_block(nums@.take(0int)) =~= Seq::<char>::empty());
        assert(out@ =~= out@ + gen_block(nums@.take(0int)));
    }
    while k < nums.len()
        invariant
            k <= nums@.len(),
            headp@ == line_head(),
            tailp@ == line_tail(),
            out@ == old(out)@ + gen_block(nums@.take(k as int)),
        decreases nums@.len() - k,
    {
        let ghost prev = out@;
        push_chars(out, headp);
        push_dec(out, nums[k]);
        push_chars(out, tailp);
        proof {
            assert(out@ =~= prev + gen_line(nums@[k as int]));
            assert(nums@.take(k as int + 1) =~= nums@.take(k as int) + seq![nums@[k as int]]);
            lemma_gen_block_append(nums@.take(k as int), seq![nums@[k as int]]);
            assert(seq![nums@[k as int]].drop_first() =~= Seq::<u32>::empty());
            assert(gen_block(Seq::<u32>::empty()) =~= Seq::<char>::empty());
            assert(gen_block(seq![nums@[k as int]]) == gen_line(seq![nums@[k as int]][0])
                + gen_block(seq![nums@[k as int]].drop_first()));
            assert(gen_line(nums@[k as int]) + Seq::<char>::empty() =~= gen_line(nums@[k as int]));
            assert(gen_block(seq![nums@[k as int]]) =~= gen_line(nums@[k as int]));
            assert(out@ =~= old(out)@ + gen_block(nums@.take(k as int + 1)));
        }
        k = k + 1;
    }
    proof {
        assert(nums@.take(nums@.len() as int) =~= nums@);
    }
}

/// Appends `src[a..b]` to `out`.
fn push_range(out: &mut Vec<char>, src: &Vec<char>, a: usize, b: usize)
    requires
        a <= b <= src@.len(),
    ensures
        final(out)@ == old(out)@ + src@.subrange(a as int, b as int),
{
    let mut k: usize = a;
    proof {
        assert(out@ =~= out@ + src@.subrange(a as int, a as int));
    }
    while k < b
        invariant
            a <= k <= b <= src@.len(),
            out@ == old(out)@ + src@.subrange(a as int, k as int),
        decreases b - k,
    {
        out.push(src[k]);
        proof {
            assert(out@ =~= old(out)@ + src@.subrange(a as int, k as int + 1));
        }
        k = k + 1;
    }
}

/// Rewrites the bounded block so it references exactly the given sequence
/// numbers, in the order given, and leaves everything outside the block
/// unchanged. Fails with `BlockNotFound` when the sentinel pair cannot be
/// located.
pub fn sync(doc: &str, nums: &Vec<u32>) -> (r: Result<String, AggregatorError>)
    ensures
        r is Ok <==> sync_spec(doc@, nums@) is Some,
        r is Ok ==> Some(r->Ok_0@) == sync_spec(doc@, nums@),
        r is Err ==> r->Err_0 == AggregatorError::BlockNotFound,
{
    let dv = chars_vec(doc);
    let n: usize = dv.len();
    let startp = chars_vec("% start lessons\n");
    let endp = chars_vec("    % end lessons");
    let headp = chars_vec("    \\input{les");
    let tailp = chars_vec(".tex}\n");
    let i = match find_start(&dv, &startp) {
        None => {
            return Err(AggregatorError::BlockNotFound);
        },
        Some(i) => i,
    };
    proof {
        lemma_find_start_from_props(doc@, 0);
        assert(i + startp@.len() <= n);
    }
    let j = match block_end(&dv, i + startp.len(), &endp, &headp, &tailp) {
        None => {
            return Err(AggregatorError::BlockNotFound);
        },
        Some(j) => j,
    };
    proof {
        lemma_block_end_from_props(doc@, i + startp@.len());
    }
    let mut out: Vec<char> = Vec::new();
    push_range(&mut out, &dv, 0, i);
    push_chars(&mut out, &startp);
    push_block(&mut out, nums, &headp, &tailp);
    push_range(&mut out, &dv, j, dv.len());
    proof {
        assert(out@ =~= doc@.subrange(0, i as int) + start_sentinel() + gen_block(nums@)
            + doc@.subrange(j as int, doc@.len() as int));
    }
    Ok(string_from_chars(&out))
}

/// What a found start position means: the sentinel stands there, and
/// nowhere earlier.
pub proof fn lemma_find_start_from_props(s: Seq<char>, k: int)
    requires
        0 <= k,
        find_start_from(s, k) is Some,
    ensures
        ({
            let i = find_start_from(s, k)->Some_0;
            &&& k <= i
            &&& i + start_sentinel().len() <= s.len()
            &&& matches_at(s, i, start_sentinel())
            &&& forall|m: int| k <= m < i ==> !matches_at(s, m, start_sentinel())
        }),
    decreases s.len() - k,
{
    if k >= s.len() {
    } else if matches_at(s, k, start_sentinel()) {
    } else {
        lemma_find_start_from_props(s, k + 1);
    }
}

/// A position where the sentinel stands, with no occurrence since `k`, is
/// what the search from `k` finds.
pub proof fn lemma_find_start_from_at(s: Seq<char>, k: int, i: int)
    requires
        0 <= k <= i,
        matches_at(s, i, start_sentinel()),
        forall|m: int| k <= m < i ==> !matches_at(s, m, start_sentinel()),
    ensures
        find_start_from(s, k) == Some(i),
    decreases i - k,
{
    reveal_strlit("% start lessons\n");
    if k < i {
        lemma_find_start_from_at(s, k + 1, i);
    }
}

/// A found block end carries the end sentinel.
pub proof fn lemma_block_end_from_props(s: Seq<char>, k: int)
    requires
        0 <= k <= s.len(),
        block_end_from(s, k) is Some,
    ensures
        ({
            let j = block_end_from(s, k)->Some_0;
            &&& k <= j
            &&& matches_at(s, j, end_sentinel())
        }),
    decreases s.len() - k,
{
    if matches_at(s, k, end_sentinel()) {
    } else if line_at(s, k) {
        lemma_block_end_from_props(s, k + line_len(s, k));
    }
}

/// A run of exactly `d` digits, ended by a non-digit or the end.
proof fn lemma_digit_run_exact(s: Seq<char>, m: int, d: int)
    requires
        0 <= m,
        0 <= d,
        m + d <= s.len(),
        forall|k: int| m <= k < m + d ==> is_digit(s[k]),
        m + d == s.len() || !is_digit(s[m + d]),
    ensures
        digit_run(s, m) == d,
    decreases d,
{
    if d > 0 {
        lemma_digit_run_exact(s, m + 1, d - 1);
    }
}

/// Where the document holds the generated block for `ns` followed by the
/// end sentinel, the block scan ends exactly at the sentinel.
proof fn lemma_block_end_gen(s: Seq<char>, p: int, ns: Seq<u32>)
    requires
        0 <= p,
        p + gen_block(ns).len() <= s.len(),
        s.subrange(p, p + gen_block(ns).len()) == gen_block(ns),
        matches_at(s, p + gen_block(ns).len(), end_sentinel()),
    ensures
        block_end_from(s, p) == Some(p + gen_block(ns).len()),
    decreases ns.len(),
{
    reveal_strlit("% start lessons\n");
    reveal_strlit("    % end lessons");
    reveal_strlit("    \\input{les");
    reveal_strlit(".tex}\n");
    if ns.len() == 0 {
        assert(gen_block(ns).len() == 0);
    } else {
        let line = gen_line(ns[0]);
        let rep = dec_rep(ns[0] as nat);
        lemma_dec_rep_digits(ns[0] as nat);
        let rest = gen_block(ns.drop_first());
        assert(gen_block(ns) == line + rest);
        let ll = line.len();
        assert(ll == line_head().len() + rep.len() + line_tail().len());
        // every character of the line stands in the document at p
        assert(forall|k: int| 0 <= k < gen_block(ns).len() ==> s[p + k] == #[trigger] gen_block(
            ns,
        )[k]) by {
            assert(forall|k: int|
                0 <= k < gen_block(ns).len() ==> s.subrange(p, p + gen_block(ns).len())[k]
                    == #[trigger] gen_block(ns)[k]);
        }
        // the end sentinel does not stand at p: the characters differ
        assert(!matches_at(s, p, end_sentinel())) by {
            if matches_at(s, p, end_sentinel()) {
                assert(s.subrange(p, p + end_sentinel().len())[4] == end_sentinel()[4]);
                assert(s[p + 4] == '%');
                assert(gen_block(ns)[4] == line[4]);
                assert(line[4] == line_head()[4]);
            }
        }
        // a generated line stands at p
        assert(matches_at(s, p, line_head())) by {
            assert forall|k: int| 0 <= k < line_head().len() implies s.subrange(
                p,
                p + line_head().len(),
            )[k] == line_head()[k] by {
                assert(s[p + k] == gen_block(ns)[k]);
                assert(gen_block(ns)[k] == line[k]);
                assert(line[k] == line_head()[k]);
            }
            assert(s.subrange(p, p + line_head().len()) =~= line_head());
        }
        let m = p + line_head().len();
        assert(digit_run(s, m) == rep.len()) by {
            assert forall|k: int| m <= k < m + rep.len() implies is_digit(s[k]) by {
                assert(s[k] == gen_block(ns)[k - p]);
                assert(gen_block(ns)[k - p] == line[k - p]);
                assert(line[k - p] == rep[k - p - line_head().len()]);
            }
            assert(s[m + rep.len()] == gen_block(ns)[line_head().len() + rep.len() as int]);
            assert(gen_block(ns)[line_head().len() + rep.len() as int] == line[line_head().len()
                + rep.len() as int]);
            assert(line[line_head().len() + rep.len() as int] == line_tail()[0]);
            assert(!is_digit(line_tail()[0]));
            lemma_digit_run_exact(s, m, rep.len() as int);
        }
        assert(matches_at(s, m + rep.len(), line_tail())) by {
            assert forall|k: int| 0 <= k < line_tail().len() implies s.subrange(
                m + rep.len(),
                m + rep.len() + line_tail().len(),
            )[k] == line_tail()[k] by {
                assert(s[m + rep.len() + k] == gen_block(ns)[line_head().len() + rep.len() + k]);
                assert(gen_block(ns)[line_head().len() + rep.len() + k] == line[line_head().len()
                    + rep.len() + k]);
            }
            assert(s.subrange(m + rep.len(), m + rep.len() + line_tail().len()) =~= line_tail());
        }
        assert(line_at(s, p));
        assert(line_len(s, p) == ll);
        // the rest of the block aligns at p + ll
        assert(s.subrange(p + ll, p + ll + rest.len()) =~= rest) by {
            assert forall|k: int| 0 <= k < rest.len() implies s.subrange(
                p + ll,
                p + ll + rest.len(),
            )[k] == rest[k] by {
                assert(s[p + ll + k] == gen_block(ns)[ll + k]);
                assert(gen_block(ns)[ll + k] == rest[k]);
            }
        }
        lemma_block_end_gen(s, p + ll, ns.drop_first());
        assert(block_end_from(s, p) == block_end_from(s, p + ll));
    }
}

/// Synchronizing is idempotent: a second pass with the same numbers leaves
/// the document byte-identical.
pub proof fn lemma_sync_idempotent(doc: Seq<char>, ns: Seq<u32>)
    requires
        sync_spec(doc, ns) is Some,
    ensures
        sync_spec(sync_spec(doc, ns)->Some_0, ns) == sync_spec(doc, ns),
{
    let sl = start_sentinel().len() as int;
    let el = end_sentinel().len() as int;
    let i = find_start_from(doc, 0)->Some_0;
    lemma_find_start_from_props(doc, 0);
    let b = i + sl;
    let j = block_end_from(doc, b)->Some_0;
    lemma_block_end_from_props(doc, b);
    let gb = gen_block(ns);
    let pre = doc.subrange(0, i);
    let suf = doc.subrange(j, doc.len() as int);
    let new = pre + start_sentinel() + gb + suf;
    assert(sync_spec(doc, ns) == Some(new));
    // the first start sentinel of the new document is still at i
    assert(forall|k: int| 0 <= k < i + sl ==> new[k] == doc[k]) by {
        assert(forall|x: int| 0 <= x < sl ==> doc.subrange(i, i + sl)[x] == start_sentinel()[x]);
    }
    assert(matches_at(new, i, start_sentinel())) by {
        assert forall|x: int| 0 <= x < sl implies new.subrange(i, i + sl)[x]
            == start_sentinel()[x] by {
            assert(new[i + x] == doc[i + x]);
            assert(doc.subrange(i, i + sl)[x] == start_sentinel()[x]);
        }
        assert(new.subrange(i, i + sl) =~= start_sentinel());
    }
    assert forall|m: int| 0 <= m < i implies !matches_at(new, m, start_sentinel()) by {
        if matches_at(new, m, start_sentinel()) {
            assert forall|x: int| 0 <= x < sl implies doc.subrange(m, m + sl)[x]
                == start_sentinel()[x] by {
                assert(new.subrange(m, m + sl)[x] == start_sentinel()[x]);
                assert(new[m + x] == doc[m + x]);
            }
            assert(doc.subrange(m, m + sl) =~= start_sentinel());
            assert(matches_at(doc, m, start_sentinel()));
        }
    }
    lemma_find_start_from_at(new, 0, i);
    // the block scan of the new document ends right after the new block
    assert(new.subrange(b, b + gb.len()) =~= gb) by {
        assert forall|k: int| 0 <= k < gb.len() implies new.subrange(b, b + gb.len())[k]
            == gb[k] by {
            assert(new[b + k] == gb[k]);
        }
    }
    assert(matches_at(new, b + gb.len(), end_sentinel())) by {
        assert forall|x: int| 0 <= x < el implies new.subrange(
            b + gb.len(),
            b + gb.len() + el,
        )[x] == end_sentinel()[x] by {
            assert(new[b + gb.len() + x] == suf[x]);
            assert(suf[x] == doc[j + x]);
            assert(doc.subrange(j, j + el)[x] == end_sentinel()[x]);
        }
        assert(new.subrange(b + gb.len(), b + gb.len() + el) =~= end_sentinel());
    }
    lemma_block_end_gen(new, b, ns);
    // reassembling the new document gives it back unchanged
    assert(new.subrange(0, i) =~= pre);
    assert(new.subrange(b + gb.len(), new.len() as int) =~= suf) by {
        assert forall|k: int| 0 <= k < suf.len() implies new.subrange(
            b + gb.len(),
            new.len() as int,
        )[k] == suf[k] by {
            assert(new[b + gb.len() + k] == suf[k]);
        }
    }
    assert(sync_spec(new, ns) == Some(new.subrange(0, i) + start_sentinel() + gb + new.subrange(
        b + gb.len(),
        new.len() as int,
    )));
    assert(new.subrange(0, i) + start_sentinel() + gb + new.subrange(b + gb.len(), new.len() as int)
        =~= new);
}

/// Synchronizing preserves everything outside the block: the text before
/// the start sentinel and the text from the end sentinel on are unchanged,
/// and between them stands exactly the generated block.
pub proof fn lemma_sync_preserves_outside(doc: Seq<char>, ns: Seq<u32>)
    requires
        sync_spec(doc, ns) is Some,
    ensures
        ({
            let i = find_start_from(doc, 0)->Some_0;
            let b = i + start_sentinel().len();
            let j = block_end_from(doc, b)->Some_0;
            let r = sync_spec(doc, ns)->Some_0;
            &&& r.subrange(0, i + start_sentinel().len() as int) == doc.subrange(
                0,
                i + start_sentinel().len() as int,
            )
            &&& r.subrange(b, b + gen_block(ns).len() as int) == gen_block(ns)
            &&& r.subrange(b + gen_block(ns).len() as int, r.len() as int) == doc.subrange(
                j,
                doc.len() as int,
            )
        }),
{
    let sl = start_sentinel().len() as int;
    let i = find_start_from(doc, 0)->Some_0;
    lemma_find_start_from_props(doc, 0);
    let b = i + sl;
    let j = block_end_from(doc, b)->Some_0;
    lemma_block_end_from_props(doc, b);
    let gb = gen_block(ns);
    let pre = doc.subrange(0, i);
    let suf = doc.subrange(j, doc.len() as int);
    let r = sync_spec(doc, ns)->Some_0;
    assert(r == pre + start_sentinel() + gb + suf);
    assert(r.subrange(0, b) =~= doc.subrange(0, b)) by {
        assert forall|k: int| 0 <= k < b implies r.subrange(0, b)[k] == doc.subrange(0, b)[k] by {
            if k < i {
                assert(r[k] == pre[k]);
            } else {
                assert(r[k] == start_sentinel()[k - i]);
                assert(doc.subrange(i, i + sl)[k - i] == start_sentinel()[k - i]);
            }
        }
    }
    assert(r.subrange(b, b + gb.len()) =~= gb) by {
        assert forall|k: int| 0 <= k < gb.len() implies r.subrange(b, b + gb.len())[k] == gb[k] by {
            assert(r[b + k] == gb[k]);
        }
    }
    assert(r.subrange(b + gb.len(), r.len() as int) =~= suf) by {
        assert forall|k: int| 0 <= k < suf.len() implies r.subrange(b + gb.len(), r.len() as int)[k]
            == suf[k] by {
            assert(r[b + gb.len() + k] == suf[k]);
        }
    }
}

} // verus!
