//! Homework documents: deriving the next homework number from a course
//! directory's entries, planning the new homework directory and file, and
//! rendering its content from the homework template.
//!
//! Everything here is pure: callers list the course directory and hand the
//! entry names and the template text in; what comes back is a plan with the
//! names to create and the content to write.

use vstd::prelude::*;
use crate::text::{is_digit, is_lower, is_lower_exec, dec_rep, upper_seq, chars_vec, push_chars,
    push_dec, push_upper, string_from_chars, u32_string};
use crate::scan::{homework_numbers, sorted_numbers, next_of, seq_max, detect_homeworks,
    next_number, lemma_bound_transfer, lemma_seq_max_multiset, lemma_sorted_numbers_props};
use crate::template::{RenderContext, TemplateError, spec_render, render};

verus! {

/// How many consecutive lowercase letters stand at position `i`.
pub open spec fn lower_run(s: Seq<char>, i: int) -> nat
    decreases s.len() - i,
    when i >= 0
{
    if 0 <= i < s.len() && is_lower(s[i]) {
        1 + lower_run(s, i + 1)
    } else {
        0
    }
}

/// A course identifier: one or more lowercase letters, then exactly three
/// decimal digits.
pub open spec fn is_course_id(s: Seq<char>) -> bool {
    let l = lower_run(s, 0) as int;
    &&& l >= 1
    &&& s.len() == l + 3
    &&& is_digit(s[l])
    &&& is_digit(s[l + 1])
    &&& is_digit(s[l + 2])
}

/// The display name of a course identifier: the department code
/// uppercased, a space, then the number part.
pub open spec fn display_of(s: Seq<char>) -> Seq<char> {
    let l = lower_run(s, 0) as int;
    upper_seq(s.subrange(0, l)) + seq![' '] + s.subrange(l, s.len() as int)
}

/// The render context for a homework: the course display name and the
/// homework sequence number.
pub open spec fn homework_ctx(course_id: Seq<char>, n: int) -> Seq<(Seq<char>, Seq<char>)> {
    seq![("course"@, display_of(course_id)), ("number"@, dec_rep(n as nat))]
}

/// Everything needed to materialize one new homework: the directory to
/// create, the file to write inside it, and the rendered content.
pub struct HomeworkPlan {
    pub number: u32,
    pub directory_name: String,
    pub file_name: String,
    pub content: String,
}

/// The display name of a course identifier, e.g. a lowercase department
/// code and three digits become the code uppercased, a space, the digits.
pub fn display_name(name: &str) -> (r: String)
    requires
        is_course_id(name@),
    ensures
        r@ == display_of(name@),
{
    let nv = chars_vec(name);
    let n: usize = nv.len();
    let mut l: usize = 0;
    while l < n && is_lower_exec(nv[l])
        invariant
            l <= n,
            n == nv@.len(),
            nv@ == name@,
            lower_run(nv@, 0) == l + lower_run(nv@, l as int),
        decreases n - l,
    {
        proof {
            assert(lower_run(nv@, l as int) == 1 + lower_run(nv@, l as int + 1));
        }
        l = l + 1;
    }
    proof {
        assert(lower_run(nv@, l as int) == 0);
        assert(lower_run(name@, 0) == l);
    }
    let mut letters: Vec<char> = Vec::new();
    let mut i: usize = 0;
    while i < l
        invariant
            i <= l <= n,
            n == nv@.len(),
            nv@ == name@,
            letters@ == name@.subrange(0, i as int),
        decreases l - i,
    {
        letters.push(nv[i]);
        proof {
            assert(letters@ =~= name@.subrange(0, i as int + 1));
        }
        i = i + 1;
    }
    let mut out: Vec<char> = Vec::new();
    push_upper(&mut out, &letters);
    out.push(' ');
    let mut j: usize = l;
    while j < n
        invariant
            l <= j <= n,
            n == nv@.len(),
            nv@ == name@,
            l == lower_run(name@, 0),
            out@ == upper_seq(name@.subrange(0, l as int)) + seq![' '] + name@.subrange(
                l as int,
                j as int,
            ),
        decreases n - j,
    {
        out.push(nv[j]);
        proof {
            assert(out@ =~= upper_seq(name@.subrange(0, l as int)) + seq![' '] + name@.subrange(
                l as int,
                j as int + 1,
            ));
        }
        j = j + 1;
    }
    string_from_chars(&out)
}

/// Plans the next homework for a course: derives the next sequence number
/// from the directory's entry names, renders the homework template with
/// the course display name and that number, and names the directory and
/// file to create. Fails exactly when the template fails to render.
pub fn new_homework(course_name: &str, names: &Vec<String>, template: &str) -> (r: Result<
    HomeworkPlan,
    TemplateError,
>)
    requires
        is_course_id(course_name@),
        forall|i: int|
            0 <= i < homework_numbers(names@).len() ==> #[trigger] homework_numbers(names@)[i]
                < u32::MAX,
    ensures
        ({
            let n = next_of(homework_numbers(names@));
            let rendered = spec_render(template@, homework_ctx(course_name@, n));
            match r {
                Ok(plan) => {
                    &&& plan.number as int == n
                    &&& plan.directory_name@ == "homework"@ + dec_rep(n as nat)
                    &&& plan.file_name@ == "homework"@ + dec_rep(n as nat) + ".tex"@
                    &&& rendered == Ok::<Seq<char>, TemplateError>(plan.content@)
                },
                Err(e) => rendered == Err::<Seq<char>, TemplateError>(e),
            }
        }),
{
    let nums = detect_homeworks(names);
    proof {
        lemma_bound_transfer(nums@, homework_numbers(names@), u32::MAX);
        vstd::seq_lib::to_multiset_len(nums@);
        vstd::seq_lib::to_multiset_len(homework_numbers(names@));
        if nums@.len() > 0 {
            lemma_seq_max_multiset(nums@, homework_numbers(names@));
        }
    }
    let n = next_number(&nums);
    let display = display_name(course_name);
    let numstr = u32_string(n);
    let mut ctx = RenderContext::new();
    ctx.add("course".to_owned(), display);
    ctx.add("number".to_owned(), numstr);
    proof {
        assert(ctx@ =~= homework_ctx(course_name@, n as int));
    }
    let content = match render(template, &ctx) {
        Ok(c) => c,
        Err(e) => {
            return Err(e);
        },
    };
    let mut dv = chars_vec("homework");
    push_dec(&mut dv, n);
    let directory_name = string_from_chars(&dv);
    let mut fv = chars_vec("homework");
    push_dec(&mut fv, n);
    let tex = chars_vec(".tex");
    push_chars(&mut fv, &tex);
    let file_name = string_from_chars(&fv);
    Ok(HomeworkPlan { number: n, directory_name, file_name, content })
}

/// The directory and file name of the most recent homework: the one with
/// the highest sequence number among the entry names.
pub fn recent_homework(names: &Vec<String>) -> (r: (String, String))
    requires
        homework_numbers(names@).len() > 0,
    ensures
        ({
            let m = seq_max(homework_numbers(names@));
            &&& r.0@ == "homework"@ + dec_rep(m as nat)
            &&& r.1@ == "homework"@ + dec_rep(m as nat) + ".tex"@
        }),
{
    let nums = detect_homeworks(names);
    proof {
        lemma_seq_max_multiset(homework_numbers(names@), nums@);
        crate::scan::lemma_sorted_last_is_max(nums@);
    }
    let m = nums[nums.len() - 1];
    let mut dv = chars_vec("homework");
    push_dec(&mut dv, m);
    let directory_name = string_from_chars(&dv);
    let tex = chars_vec(".tex");
    push_chars(&mut dv, &tex);
    let file_name = string_from_chars(&dv);
    (directory_name, file_name)
}

/// The picker option list for the existing homeworks: one line per number,
/// ascending, separated by newlines.
pub open spec fn homework_options_of(s: Seq<u32>) -> Seq<char>
    decreases s.len(),
{
    if s.len() == 0 {
        Seq::empty()
    } else if s.len() == 1 {
        "Homework "@ + dec_rep(s[0] as nat)
    } else {
        homework_options_of(s.drop_last()) + seq!['\n'] + "Homework "@ + dec_rep(s.last() as nat)
    }
}

/// Builds the option list handed to the interactive picker: one
/// `Homework <N>` line per existing homework, ascending.
pub fn homework_options(names: &Vec<String>) -> (r: String)
    ensures
        r@ == homework_options_of(sorted_numbers(homework_numbers(names@))),
{
    let nums = detect_homeworks(names);
    let hw = chars_vec("Homework ");
    let mut out: Vec<char> = Vec::new();
    let mut idx: usize = 0;
    proof {
        assert(out@ =~= homework_options_of(nums@.take(0int)));
    }
    while idx < nums.len()
        invariant
            idx <= nums@.len(),
            hw@ == "Homework "@,
            out@ == homework_options_of(nums@.take(idx as int)),
        decreases nums@.len() - idx,
    {
        if idx != 0 {
            out.push('\n');
        }
        push_chars(&mut out, &hw);
        push_dec(&mut out, nums[idx]);
        proof {
            let t = nums@.take(idx as int + 1);
            assert(t.drop_last() =~= nums@.take(idx as int));
            assert(t.last() == nums@[idx as int]);
            if idx == 0 {
                assert(out@ =~= homework_options_of(t));
            } else {
                assert(out@ =~= homework_options_of(t));
            }
        }
        idx = idx + 1;
    }
    proof {
        assert(nums@.take(nums@.len() as int) =~= nums@);
    }
    string_from_chars(&out)
}

/// The directory and file name of the homework picked from the option
/// list: the one at `choice` in ascending order.
pub fn view_homeworks(names: &Vec<String>, choice: usize) -> (r: (String, String))
    requires
        choice < homework_numbers(names@).len(),
    ensures
        ({
            let m = sorted_numbers(homework_numbers(names@))[choice as int];
            &&& r.0@ == "homework"@ + dec_rep(m as nat)
            &&& r.1@ == "homework"@ + dec_rep(m as nat) + ".tex"@
        }),
{
    let nums = detect_homeworks(names);
    proof {
        vstd::seq_lib::to_multiset_len(nums@);
        vstd::seq_lib::to_multiset_len(homework_numbers(names@));
    }
    let m = nums[choice];
    let mut dv = chars_vec("homework");
    push_dec(&mut dv, m);
    let directory_name = string_from_chars(&dv);
    let tex = chars_vec(".tex");
    push_chars(&mut dv, &tex);
    let file_name = string_from_chars(&dv);
    (directory_name, file_name)
}

} // verus!
