//! Lecture documents: initializing the main lecture document from the
//! lecture template, and planning a new lesson — its stub file and the
//! synchronized main document that references every lesson.

use vstd::prelude::*;
use crate::{Course, Config, CourseContext};
use crate::text::{dec_rep, chars_vec, push_chars, push_dec, string_from_chars};
use crate::scan::{lesson_numbers, sorted, sorted_numbers, next_of, detect_lessons, next_number,
    lemma_bound_transfer, lemma_seq_max_multiset, lemma_seq_max_props};
use crate::template::{RenderContext, TemplateError, spec_render, render};
use crate::aggregator::{AggregatorError, sync, sync_spec};

verus! {

/// The render context of the lecture template: the course attributes and
/// the storage root.
pub open spec fn lecture_ctx(c: CourseContext) -> Seq<(Seq<char>, Seq<char>)> {
    seq![
        ("name"@, c.name@),
        ("title"@, c.title@),
        ("prof"@, c.prof@),
        ("semester"@, c.semester@),
        ("notebook"@, c.notebook@),
    ]
}

/// Everything needed to materialize one new lesson: the stub file to
/// write, its content, and the synchronized main document.
pub struct LessonPlan {
    pub number: u32,
    pub file_name: String,
    pub stub: String,
    pub new_main: String,
}

/// Renders the initial main lecture document from the lecture template and
/// the course context. Fails exactly when the template fails to render.
pub fn init_lecture(template: &str, context: &CourseContext) -> (r: Result<String, TemplateError>)
    ensures
        r is Ok ==> spec_render(template@, lecture_ctx(*context)) == Ok::<Seq<char>, TemplateError>(
            r->Ok_0@,
        ),
        r is Err ==> spec_render(template@, lecture_ctx(*context)) == Err::<
            Seq<char>,
            TemplateError,
        >(r->Err_0),
{
    let mut ctx = RenderContext::new();
    ctx.add("name".to_owned(), context.name.clone());
    ctx.add("title".to_owned(), context.title.clone());
    ctx.add("prof".to_owned(), context.prof.clone());
    ctx.add("semester".to_owned(), context.semester.clone());
    ctx.add("notebook".to_owned(), context.notebook.clone());
    proof {
        assert(ctx@ =~= lecture_ctx(*context));
    }
    render(template, &ctx)
}

/// Plans the next lesson: derives the next sequence number from the
/// lecture directory's entry names, names the stub file `les<N>.tex` with
/// its fixed stub content, and synchronizes the main document so its block
/// references every lesson including the new one, ascending. Fails exactly
/// when the main document's sentinel pair cannot be located, and then
/// nothing is planned at all.
pub fn new_lesson(names: &Vec<String>, main_doc: &str) -> (r: Result<LessonPlan, AggregatorError>)
    requires
        forall|i: int|
            0 <= i < lesson_numbers(names@).len() ==> #[trigger] lesson_numbers(names@)[i]
                < u32::MAX,
    ensures
        ({
            let n = next_of(lesson_numbers(names@));
            let synced = sync_spec(main_doc@, sorted_numbers(lesson_numbers(names@)).push(n as u32));
            &&& sorted(sorted_numbers(lesson_numbers(names@)).push(n as u32))
            &&& match r {
                Ok(plan) => {
                    &&& plan.number as int == n
                    &&& plan.file_name@ == "les"@ + dec_rep(n as nat) + ".tex"@
                    &&& plan.stub@ == "\\lesson{"@ + dec_rep(n as nat) + "}{}\n\n"@
                    &&& synced == Some(plan.new_main@)
                },
                Err(e) => {
                    &&& synced is None
                    &&& e == AggregatorError::BlockNotFound
                },
            }
        }),
{
    let mut nums = detect_lessons(names);
    proof {
        lemma_bound_transfer(nums@, lesson_numbers(names@), u32::MAX);
        vstd::seq_lib::to_multiset_len(nums@);
        vstd::seq_lib::to_multiset_len(lesson_numbers(names@));
        if nums@.len() > 0 {
            lemma_seq_max_multiset(nums@, lesson_numbers(names@));
        }
    }
    let n = next_number(&nums);
    let ghost before = nums@;
    nums.push(n);
    proof {
        if before.len() > 0 {
            lemma_seq_max_props(before);
        }
        assert forall|a: int, b: int| 0 <= a < b < nums@.len() implies nums@[a] <= nums@[b] by {
            if b == nums@.len() - 1 {
                assert(nums@[a] == before[a]);
            }
        }
        assert(sorted(nums@));
    }
    let new_main = match sync(main_doc, &nums) {
        Ok(m) => m,
        Err(e) => {
            return Err(e);
        },
    };
    let mut fv = chars_vec("les");
    push_dec(&mut fv, n);
    let tex = chars_vec(".tex");
    push_chars(&mut fv, &tex);
    let file_name = string_from_chars(&fv);
    let mut sv = chars_vec("\\lesson{");
    push_dec(&mut sv, n);
    let close = chars_vec("}{}\n\n");
    push_chars(&mut sv, &close);
    let stub = string_from_chars(&sv);
    Ok(LessonPlan { number: n, file_name, stub, new_main })
}

} // verus!
