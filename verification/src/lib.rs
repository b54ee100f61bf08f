//! Course-notes document management: sequence scanning, template rendering,
//! document planning, and aggregator-block synchronization.
//!
//! The filesystem is the source of truth: callers list a directory and hand
//! the entry names to this library, which derives the current document set,
//! computes the next sequence number, renders new document content, and
//! rewrites the bounded lesson block of an aggregator document. All logic
//! here is pure text-to-text; reading and writing files is the caller's job.

use vstd::prelude::*;

pub mod aggregator;
pub mod homework;
pub mod lecture;
pub mod scan;
pub mod template;
pub mod text;

use crate::text::{upper_seq, chars_vec, push_chars, push_upper, string_from_chars};

verus! {

/// Attributes of one course, as stored by the course repository.
pub struct Course {
    pub name: String,
    pub title: String,
    pub prof: String,
    pub semester: String,
}

/// Paths the application is configured with, as plain strings.
pub struct Config {
    pub root: String,
    pub lecture_template: String,
    pub homework_template: String,
}

/// The fields the lecture template is rendered with: the course attributes
/// and the storage root.
pub struct CourseContext {
    pub name: String,
    pub title: String,
    pub prof: String,
    pub semester: String,
    pub notebook: String,
}

impl CourseContext {
    /// The context of one course under one configuration.
    pub fn from(course: &Course, config: &Config) -> (r: CourseContext)
        ensures
            r.name@ == course.name@,
            r.title@ == course.title@,
            r.prof@ == course.prof@,
            r.semester@ == course.semester@,
            r.notebook@ == config.root@,
    {
        CourseContext {
            name: course.name.clone(),
            title: course.title.clone(),
            prof: course.prof.clone(),
            semester: course.semester.clone(),
            notebook: config.root.clone(),
        }
    }
}

/// The directory of one course: the storage root, the semester, the course
/// name, joined by path separators.
pub open spec fn course_directory_of(root: Seq<char>, semester: Seq<char>, name: Seq<char>) -> Seq<
    char,
> {
    root + seq!['/'] + semester + seq!['/'] + name
}

/// The directory that holds a course's documents.
pub fn course_directory(config: &Config, course: &Course) -> (r: String)
    ensures
        r@ == course_directory_of(config.root@, course.semester@, course.name@),
{
    let mut v = chars_vec(config.root.as_str());
    v.push('/');
    let sem = chars_vec(course.semester.as_str());
    push_chars(&mut v, &sem);
    v.push('/');
    let nm = chars_vec(course.name.as_str());
    push_chars(&mut v, &nm);
    proof {
        assert(v@ =~= course_directory_of(config.root@, course.semester@, course.name@));
    }
    string_from_chars(&v)
}

/// The lecture subdirectory of a course's directory.
pub fn lecture_directory(config: &Config, course: &Course) -> (r: String)
    ensures
        r@ == course_directory_of(config.root@, course.semester@, course.name@) + seq!['/']
            + "lecture"@,
{
    let base = course_directory(config, course);
    let mut v = chars_vec(base.as_str());
    v.push('/');
    let tail = chars_vec("lecture");
    push_chars(&mut v, &tail);
    proof {
        assert(v@ =~= course_directory_of(config.root@, course.semester@, course.name@)
            + seq!['/'] + "lecture"@);
    }
    string_from_chars(&v)
}

/// One line of the course picker: the name uppercased, a colon and a
/// space, the title, a newline.
pub open spec fn course_line_of(c: Course) -> Seq<char> {
    upper_seq(c.name@) + ": "@ + c.title@ + seq!['\n']
}

/// The option list of the course picker, one line per course, in order.
pub open spec fn course_options_of(cs: Seq<Course>) -> Seq<char>
    decreases cs.len(),
{
    if cs.len() == 0 {
        Seq::empty()
    } else {
        course_options_of(cs.drop_last()) + course_line_of(cs.last())
    }
}

/// Builds the option list handed to the interactive course picker.
pub fn course_options(courses: &Vec<Course>) -> (r: String)
    ensures
        r@ == course_options_of(courses@),
{
    let mut out: Vec<char> = Vec::new();
    let sep = chars_vec(": ");
    let mut i: usize = 0;
    proof {
        assert(out@ =~= course_options_of(courses@.take(0int)));
    }
    while i < courses.len()
        invariant
            i <= courses@.len(),
            sep@ == ": "@,
            out@ == course_options_of(courses@.take(i as int)),
        decreases courses@.len() - i,
    {
        let nm = chars_vec(courses[i].name.as_str());
        push_upper(&mut out, &nm);
        push_chars(&mut out, &sep);
        let tl = chars_vec(courses[i].title.as_str());
        push_chars(&mut out, &tl);
        out.push('\n');
        proof {
            let t = courses@.take(i as int + 1);
            assert(t.drop_last() =~= courses@.take(i as int));
            assert(t.last() == courses@[i as int]);
            assert(out@ =~= course_options_of(t));
        }
        i = i + 1;
    }
    proof {
        assert(courses@.take(courses@.len() as int) =~= courses@);
    }
    string_from_chars(&out)
}

/// The course picked from the option list: the one at the chosen index.
pub fn pick_course<'a>(courses: &'a Vec<Course>, choice: usize) -> (r: &'a Course)
    requires
        choice < courses@.len(),
    ensures
        *r == courses@[choice as int],
{
    &courses[choice]
}

/// What an open request is about: the lecture notes or the homeworks.
#[derive(Clone, Copy, Debug, PartialEq, Eq, Structural)]
pub enum OpenKind {
    Lecture,
    Homework,
}

/// What to do with the lecture notes.
#[derive(Clone, Copy, Debug, PartialEq, Eq, Structural)]
pub enum LectureAction {
    /// Create the next lesson, then edit it.
    NewLesson,
    /// Edit the main lecture document.
    EditNotes,
    /// View the compiled lecture document.
    ViewNotes,
}

/// What to do with the homeworks.
#[derive(Clone, Copy, Debug, PartialEq, Eq, Structural)]
pub enum HomeworkAction {
    /// Edit the most recent homework.
    EditRecent,
    /// Create the next homework, then edit it.
    NewHomework,
    /// Pick one of the existing homeworks and edit it.
    ViewPrevious,
}

/// Decides what an open request is about, from the picker's choice:
/// the first option is the lecture, anything else the homeworks.
pub fn open_command(choice: u32) -> (r: OpenKind)
    ensures
        r == (if choice == 0 {
            OpenKind::Lecture
        } else {
            OpenKind::Homework
        }),
{
    if choice == 0 {
        OpenKind::Lecture
    } else {
        OpenKind::Homework
    }
}

/// Decides the lecture action and where it happens, from the picker's
/// choice: the work happens under the course's lecture directory, on the
/// main document when editing, on its compiled form when viewing.
pub fn open_lecture(config: &Config, course: &Course, choice: u32) -> (r: (
    LectureAction,
    String,
    String,
))
    ensures
        r.0 == (if choice == 0 {
            LectureAction::NewLesson
        } else if choice == 1 {
            LectureAction::EditNotes
        } else {
            LectureAction::ViewNotes
        }),
        r.1@ == course_directory_of(config.root@, course.semester@, course.name@) + seq!['/']
            + "lecture"@,
        r.2@ == (if choice == 0 || choice == 1 {
            "main.tex"@
        } else {
            "main.pdf"@
        }),
{
    let action = if choice == 0 {
        LectureAction::NewLesson
    } else if choice == 1 {
        LectureAction::EditNotes
    } else {
        LectureAction::ViewNotes
    };
    let directory = lecture_directory(config, course);
    let file_name = if choice == 0 || choice == 1 {
        "main.tex".to_owned()
    } else {
        "main.pdf".to_owned()
    };
    (action, directory, file_name)
}

/// Decides the homework action from the picker's choice.
pub fn open_homework(choice: u32) -> (r: HomeworkAction)
    ensures
        r == (if choice == 0 {
            HomeworkAction::EditRecent
        } else if choice == 1 {
            HomeworkAction::NewHomework
        } else {
            HomeworkAction::ViewPrevious
        }),
{
    if choice == 0 {
        HomeworkAction::EditRecent
    } else if choice == 1 {
        HomeworkAction::NewHomework
    } else {
        HomeworkAction::ViewPrevious
    }
}

} // verus!
