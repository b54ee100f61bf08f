use lectern::{
    course_directory, course_options, lecture_directory, open_command, open_homework,
    open_lecture, pick_course, Config, Course, CourseContext, HomeworkAction, LectureAction,
    OpenKind,
};
use lectern::homework::{
    display_name, homework_options, new_homework, recent_homework, view_homeworks,
};
use lectern::lecture::{init_lecture, new_lesson};
use lectern::aggregator::AggregatorError;
use lectern::template::TemplateError;
use lectern::text::u32_string;

fn names(list: &[&str]) -> Vec<String> {
    list.iter().map(|s| s.to_string()).collect()
}

fn course() -> Course {
    Course {
        name: "cs101".to_string(),
        title: "Intro to Computing".to_string(),
        prof: "Prof. Ada".to_string(),
        semester: "f21".to_string(),
    }
}

fn config() -> Config {
    Config {
        root: "/notes".to_string(),
        lecture_template: "/conf/lecture_template.tex".to_string(),
        homework_template: "/conf/homework_template.tex".to_string(),
    }
}

#[test]
fn lesson_end_to_end_from_empty_directory() {
    // bootstrap: the lecture directory is empty, the aggregator document is
    // initialized from the lecture template first
    let template = "Notes for {name}: {title}\nby {prof}, {semester}, stored in {notebook}\n% start lessons\n    % end lessons\nhand-authored tail\n";
    let context = CourseContext::from(&course(), &config());
    let main0 = init_lecture(template, &context).unwrap();
    assert_eq!(
        main0,
        "Notes for cs101: Intro to Computing\nby Prof. Ada, f21, stored in /notes\n% start lessons\n    % end lessons\nhand-authored tail\n"
    );

    let plan1 = new_lesson(&names(&[]), &main0).unwrap();
    assert_eq!(plan1.number, 1);
    assert_eq!(plan1.file_name, "les1.tex");
    assert_eq!(plan1.stub, "\\lesson{1}{}\n\n");
    assert_eq!(
        plan1.new_main,
        "Notes for cs101: Intro to Computing\nby Prof. Ada, f21, stored in /notes\n% start lessons\n    \\input{les1.tex}\n    % end lessons\nhand-authored tail\n"
    );

    let plan2 = new_lesson(&names(&["les1.tex"]), &plan1.new_main).unwrap();
    assert_eq!(plan2.number, 2);
    assert_eq!(plan2.file_name, "les2.tex");
    assert_eq!(
        plan2.new_main,
        "Notes for cs101: Intro to Computing\nby Prof. Ada, f21, stored in /notes\n% start lessons\n    \\input{les1.tex}\n    \\input{les2.tex}\n    % end lessons\nhand-authored tail\n"
    );
}

#[test]
fn new_lesson_fails_without_block() {
    let r = new_lesson(&names(&[]), "no sentinels here\n");
    assert_eq!(r.err(), Some(AggregatorError::BlockNotFound));
}

#[test]
fn homework_end_to_end_with_two_existing() {
    let entries = names(&["homework1", "homework2", "figures"]);
    let template = "{course} homework number {number}\n";
    let plan = new_homework("cs101", &entries, template).unwrap();
    assert_eq!(plan.number, 3);
    assert_eq!(plan.directory_name, "homework3");
    assert_eq!(plan.file_name, "homework3.tex");
    assert_eq!(plan.content, "CS 101 homework number 3\n");
}

#[test]
fn new_homework_fails_on_unknown_placeholder() {
    let r = new_homework("cs101", &names(&[]), "{title}");
    assert_eq!(r.err(), Some(TemplateError::MissingField));
}

#[test]
fn display_name_splits_and_uppercases() {
    assert_eq!(display_name("cs101"), "CS 101");
    assert_eq!(display_name("math221"), "MATH 221");
}

#[test]
fn recent_homework_is_the_highest() {
    let entries = names(&["homework1", "homework2"]);
    let (dir, file) = recent_homework(&entries);
    assert_eq!(dir, "homework2");
    assert_eq!(file, "homework2.tex");
}

#[test]
fn view_homeworks_picks_by_ascending_index() {
    let entries = names(&["homework3", "homework1"]);
    assert_eq!(
        view_homeworks(&entries, 0),
        ("homework1".to_string(), "homework1.tex".to_string())
    );
    assert_eq!(
        view_homeworks(&entries, 1),
        ("homework3".to_string(), "homework3.tex".to_string())
    );
}

#[test]
fn homework_options_lists_ascending() {
    let entries = names(&["homework2", "homework1", "junk"]);
    assert_eq!(homework_options(&entries), "Homework 1\nHomework 2");
}

#[test]
fn course_options_and_pick() {
    let courses = vec![course()];
    assert_eq!(course_options(&courses), "CS101: Intro to Computing\n");
    assert_eq!(pick_course(&courses, 0).name, "cs101");
}

#[test]
fn directories_are_joined_from_config() {
    assert_eq!(course_directory(&config(), &course()), "/notes/f21/cs101");
    assert_eq!(lecture_directory(&config(), &course()), "/notes/f21/cs101/lecture");
}

#[test]
fn course_context_carries_the_root() {
    let ctx = CourseContext::from(&course(), &config());
    assert_eq!(ctx.name, "cs101");
    assert_eq!(ctx.title, "Intro to Computing");
    assert_eq!(ctx.prof, "Prof. Ada");
    assert_eq!(ctx.semester, "f21");
    assert_eq!(ctx.notebook, "/notes");
}

#[test]
fn open_decisions_follow_the_choice() {
    assert_eq!(open_command(0), OpenKind::Lecture);
    assert_eq!(open_command(1), OpenKind::Homework);
    let (a0, dir, file) = open_lecture(&config(), &course(), 0);
    assert_eq!(a0, LectureAction::NewLesson);
    assert_eq!(dir, "/notes/f21/cs101/lecture");
    assert_eq!(file, "main.tex");
    let (a2, _, file2) = open_lecture(&config(), &course(), 2);
    assert_eq!(a2, LectureAction::ViewNotes);
    assert_eq!(file2, "main.pdf");
    assert_eq!(open_homework(0), HomeworkAction::EditRecent);
    assert_eq!(open_homework(1), HomeworkAction::NewHomework);
    assert_eq!(open_homework(5), HomeworkAction::ViewPrevious);
}

#[test]
fn numbers_print_in_decimal() {
    assert_eq!(u32_string(0), "0");
    assert_eq!(u32_string(7), "7");
    assert_eq!(u32_string(1234567890), "1234567890");
}

#[test]
fn homework_options_of_nothing_is_empty() {
    assert_eq!(homework_options(&names(&["notes.txt"])), "");
}
