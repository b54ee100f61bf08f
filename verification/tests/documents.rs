use lectern::scan::{detect_homeworks, detect_lessons, next_number};
use lectern::template::{render, RenderContext, TemplateError};
use lectern::aggregator::{sync, AggregatorError};

fn names(list: &[&str]) -> Vec<String> {
    list.iter().map(|s| s.to_string()).collect()
}

#[test]
fn next_number_of_set() {
    assert_eq!(next_number(&vec![1, 2, 3]), 4);
}

#[test]
fn next_number_of_empty() {
    assert_eq!(next_number(&vec![]), 1);
}

#[test]
fn next_number_never_backfills_gaps() {
    assert_eq!(next_number(&vec![1, 3]), 4);
}

#[test]
fn detect_ignores_nonmatching_entries() {
    let entries = names(&["homework1", "homework3", "notes.txt", "homework"]);
    assert_eq!(detect_homeworks(&entries), vec![1, 3]);
}

#[test]
fn detect_sorts_ascending() {
    let entries = names(&["homework10", "homework2", "homework7"]);
    assert_eq!(detect_homeworks(&entries), vec![2, 7, 10]);
}

#[test]
fn detect_skips_numbers_too_large() {
    let entries = names(&["homework5", "homework99999999999"]);
    assert_eq!(detect_homeworks(&entries), vec![5]);
}

#[test]
fn detect_lessons_matches_files_only() {
    let entries = names(&["les1.tex", "les10.tex", "main.tex", "figures", "les2"]);
    assert_eq!(detect_lessons(&entries), vec![1, 10]);
}

#[test]
fn detect_keeps_duplicates() {
    let entries = names(&["homework2", "homework2"]);
    assert_eq!(detect_homeworks(&entries), vec![2, 2]);
}

#[test]
fn render_literal_text_unchanged() {
    let mut ctx = RenderContext::new();
    ctx.add("anything".to_string(), "whatever".to_string());
    let template = "A plain paragraph.\nAnother line, no placeholders.\n";
    assert_eq!(render(template, &ctx), Ok(template.to_string()));
}

#[test]
fn render_substitutes_fields() {
    let mut ctx = RenderContext::new();
    ctx.add("course".to_string(), "CS 101".to_string());
    ctx.add("number".to_string(), "3".to_string());
    let out = render("Homework {number} of {course}.", &ctx);
    assert_eq!(out, Ok("Homework 3 of CS 101.".to_string()));
}

#[test]
fn render_missing_field_fails() {
    let ctx = RenderContext::new();
    assert_eq!(render("{missing}", &ctx), Err(TemplateError::MissingField));
}

#[test]
fn render_unterminated_placeholder_fails() {
    let mut ctx = RenderContext::new();
    ctx.add("def".to_string(), "x".to_string());
    assert_eq!(render("abc{def", &ctx), Err(TemplateError::MalformedTemplate));
}

#[test]
fn render_nested_brace_fails() {
    let ctx = RenderContext::new();
    assert_eq!(render("{a{b}", &ctx), Err(TemplateError::MalformedTemplate));
}

#[test]
fn sync_writes_exactly_the_given_references() {
    let doc = "\\documentclass{article}\n% start lessons\n    % end lessons\nrest\n";
    let out = sync(doc, &vec![1, 2, 3]).unwrap();
    assert_eq!(
        out,
        "\\documentclass{article}\n% start lessons\n    \\input{les1.tex}\n    \\input{les2.tex}\n    \\input{les3.tex}\n    % end lessons\nrest\n"
    );
}

#[test]
fn sync_is_idempotent() {
    let doc = "before\n% start lessons\n    \\input{les1.tex}\n    % end lessons\nafter\n";
    let once = sync(doc, &vec![2, 5]).unwrap();
    let twice = sync(&once, &vec![2, 5]).unwrap();
    assert_eq!(once, twice);
}

#[test]
fn sync_preserves_text_outside_the_block() {
    let doc = "hand-authored preamble\n% start lessons\n    \\input{les9.tex}\n    % end lessons\nhand-authored epilogue\n";
    let out = sync(doc, &vec![1]).unwrap();
    assert!(out.starts_with("hand-authored preamble\n% start lessons\n"));
    assert!(out.ends_with("    % end lessons\nhand-authored epilogue\n"));
}

#[test]
fn sync_with_no_numbers_empties_the_block() {
    let doc = "x\n% start lessons\n    \\input{les1.tex}\n    % end lessons\ny\n";
    let out = sync(doc, &vec![]).unwrap();
    assert_eq!(out, "x\n% start lessons\n    % end lessons\ny\n");
}

#[test]
fn sync_without_sentinels_fails() {
    let doc = "a document with no block at all\n";
    assert_eq!(sync(doc, &vec![1]), Err(AggregatorError::BlockNotFound));
}

#[test]
fn sync_with_broken_block_fails() {
    let doc = "x\n% start lessons\nunexpected line\n    % end lessons\n";
    assert_eq!(sync(doc, &vec![1]), Err(AggregatorError::BlockNotFound));
}

#[test]
fn render_empty_template() {
    let ctx = RenderContext::new();
    assert_eq!(render("", &ctx), Ok(String::new()));
}

#[test]
fn sync_uses_the_first_start_sentinel() {
    let doc = "% start lessons\n    % end lessons\n% start lessons\n    % end lessons\n";
    let out = sync(doc, &vec![4]).unwrap();
    assert_eq!(
        out,
        "% start lessons\n    \\input{les4.tex}\n    % end lessons\n% start lessons\n    % end lessons\n"
    );
}
