use pdiff::app::App;
use pdiff::comment::{build_display_range, format_line_range};
use pdiff::diff_model::{DiffFile, DiffLine, Hunk, LineType};
use pdiff::keys::{KeyCode, KeyPress};
use pdiff::mode::Mode;

fn line(kind: LineType, content: &str, old: Option<u32>, new: Option<u32>) -> DiffLine {
    DiffLine { kind, content: content.to_string(), old_lineno: old, new_lineno: new }
}

fn hunk(lines: Vec<DiffLine>) -> Hunk {
    Hunk { old_start: 1, new_start: 1, header: "@@".to_string(), lines }
}

fn file(path: &str, hunks: Vec<Hunk>) -> DiffFile {
    DiffFile { path: path.to_string(), old_path: None, hunks, is_new: false, is_deleted: false, is_binary: false }
}

fn app() -> App {
    App::new(vec![
        file("src/auth.rs", vec![hunk(vec![
            line(LineType::Context, "fn check(token: &str) -> bool {", Some(10), Some(10)),
            line(LineType::Deletion, "    true", Some(11), None),
            line(LineType::Addition, "    token.len() > 0", None, Some(11)),
            line(LineType::Context, "}", Some(12), Some(12)),
        ])]),
        file("README.md", vec![hunk(vec![line(LineType::Addition, "docs", None, Some(3))])]),
    ])
}

fn ch(c: char) -> KeyPress {
    KeyPress { code: KeyCode::Char(c), ctrl: false, shift: false }
}

fn key(code: KeyCode) -> KeyPress {
    KeyPress { code, ctrl: false, shift: false }
}

fn type_text(a: &mut App, s: &str) {
    for c in s.chars() {
        a.handle_key(ch(c), 20);
    }
}

#[test]
fn comment_on_one_line() {
    let mut a = app();
    a.cursor = 2;
    a.handle_key(ch('c'), 20);
    assert_eq!(a.mode, Mode::CommentInsert);
    type_text(&mut a, "Should use proper JWT validation.");
    a.handle_key(key(KeyCode::Enter), 20);
    assert_eq!(a.mode, Mode::Normal);
    assert_eq!(a.annotations.len(), 1);
    let ann = &a.annotations[0];
    assert_eq!(ann.file, "src/auth.rs");
    assert_eq!((ann.flat_start, ann.flat_end), (2, 2));
    assert_eq!(ann.display_range, "11(new)");
    assert_eq!(ann.diff_context, "+    token.len() > 0");
    assert_eq!(ann.comment, "Should use proper JWT validation.");
    assert_eq!(a.comment_buf, "");
}

#[test]
fn comment_on_a_visual_selection_stops_at_the_file_end() {
    let mut a = app();
    a.cursor = 0;
    a.handle_key(ch('V'), 20);
    for _ in 0..4 {
        a.handle_key(ch('j'), 20);
    }
    assert_eq!(a.selection_range(), Some((0, 4)));
    a.handle_key(ch('c'), 20);
    type_text(&mut a, "x");
    a.handle_key(key(KeyCode::Enter), 20);
    let ann = &a.annotations[0];
    assert_eq!((ann.flat_start, ann.flat_end), (0, 3));
    assert_eq!(ann.display_range, "10-12");
    assert_eq!(ann.diff_context, " fn check(token: &str) -> bool {\n-    true\n+    token.len() > 0\n }");
}

#[test]
fn same_old_and_new_range_is_written_once() {
    let mut a = app();
    a.cursor = 3;
    a.handle_key(ch('c'), 20);
    type_text(&mut a, "ok");
    a.handle_key(key(KeyCode::Enter), 20);
    assert_eq!(a.annotations[0].display_range, "12");
    a.cursor = 1;
    a.handle_key(ch('c'), 20);
    type_text(&mut a, "gone");
    a.handle_key(key(KeyCode::Enter), 20);
    assert_eq!(a.annotations[1].display_range, "11(old)");
}

#[test]
fn shift_enter_backspace_and_escape_in_the_comment_box() {
    let mut a = app();
    a.handle_key(ch('c'), 20);
    type_text(&mut a, "ab");
    a.handle_key(KeyPress { code: KeyCode::Enter, ctrl: false, shift: true }, 20);
    type_text(&mut a, "cd");
    a.handle_key(key(KeyCode::Backspace), 20);
    assert_eq!(a.comment_buf, "ab\nc");
    a.handle_key(key(KeyCode::Esc), 20);
    assert_eq!(a.mode, Mode::CommentNormal);
    assert_eq!(a.comment_buf, "ab\nc");
    a.handle_key(ch('i'), 20);
    assert_eq!(a.mode, Mode::CommentInsert);
    a.handle_key(key(KeyCode::Esc), 20);
    a.handle_key(key(KeyCode::Esc), 20);
    assert_eq!(a.mode, Mode::Normal);
    assert_eq!(a.comment_buf, "");
    assert!(a.annotations.is_empty());
}

#[test]
fn escape_on_an_empty_box_returns_to_normal() {
    let mut a = app();
    a.handle_key(ch('c'), 20);
    a.handle_key(key(KeyCode::Esc), 20);
    assert_eq!(a.mode, Mode::Normal);
}

#[test]
fn submit_from_comment_normal_mode() {
    let mut a = app();
    a.handle_key(ch('c'), 20);
    type_text(&mut a, "note");
    a.handle_key(key(KeyCode::Esc), 20);
    a.handle_key(ch('c'), 20);
    assert_eq!(a.mode, Mode::Normal);
    assert_eq!(a.annotations.len(), 1);
    assert_eq!(a.annotations[0].comment, "note");
}

#[test]
fn editing_an_annotation_updates_it_in_place() {
    let mut a = app();
    a.cursor = 2;
    a.handle_key(ch('c'), 20);
    type_text(&mut a, "first");
    a.handle_key(key(KeyCode::Enter), 20);
    a.handle_key(ch('c'), 20);
    assert_eq!(a.comment_buf, "first");
    assert_eq!(a.editing_annotation, Some(0));
    type_text(&mut a, " and more");
    a.handle_key(key(KeyCode::Enter), 20);
    assert_eq!(a.annotations.len(), 1);
    assert_eq!(a.annotations[0].comment, "first and more");
    assert_eq!(a.annotations[0].display_range, "11(new)");
}

#[test]
fn clearing_an_annotation_deletes_it() {
    let mut a = app();
    a.cursor = 2;
    a.handle_key(ch('c'), 20);
    type_text(&mut a, "x");
    a.handle_key(key(KeyCode::Enter), 20);
    a.handle_key(ch('c'), 20);
    a.handle_key(key(KeyCode::Backspace), 20);
    type_text(&mut a, " \t ");
    a.handle_key(key(KeyCode::Enter), 20);
    assert!(a.annotations.is_empty());
    assert_eq!(a.editing_annotation, None);
}

#[test]
fn blank_comment_creates_nothing() {
    let mut a = app();
    a.handle_key(ch('c'), 20);
    type_text(&mut a, "   ");
    a.handle_key(key(KeyCode::Enter), 20);
    assert!(a.annotations.is_empty());
}

#[test]
fn selection_only_partly_on_an_annotation_makes_a_new_one() {
    let mut a = app();
    a.cursor = 2;
    a.handle_key(ch('c'), 20);
    type_text(&mut a, "one");
    a.handle_key(key(KeyCode::Enter), 20);
    a.handle_key(ch('V'), 20);
    a.handle_key(ch('j'), 20);
    a.handle_key(ch('c'), 20);
    assert_eq!(a.editing_annotation, None);
    assert_eq!(a.comment_buf, "");
    type_text(&mut a, "two");
    a.handle_key(key(KeyCode::Enter), 20);
    assert_eq!(a.annotations.len(), 2);
    assert_eq!((a.annotations[1].flat_start, a.annotations[1].flat_end), (2, 3));
}

#[test]
fn submit_on_an_empty_view_does_nothing() {
    let mut a = App::new(vec![]);
    a.comment_buf = "hello".to_string();
    a.submit_comment();
    assert!(a.annotations.is_empty());
    assert_eq!(a.comment_buf, "hello");
}

#[test]
fn line_ranges_format() {
    assert_eq!(format_line_range(&vec![]), None);
    assert_eq!(format_line_range(&vec![7]), Some("7".to_string()));
    assert_eq!(format_line_range(&vec![7, 8, 12]), Some("7-12".to_string()));
    assert_eq!(format_line_range(&vec![4294967295]), Some("4294967295".to_string()));
    assert_eq!(build_display_range(&vec![3, 4], &vec![3, 4]), "3-4");
    assert_eq!(build_display_range(&vec![3], &vec![5, 6]), "3(old) 5-6(new)");
    assert_eq!(build_display_range(&vec![], &vec![5]), "5(new)");
    assert_eq!(build_display_range(&vec![0], &vec![]), "0(old)");
    assert_eq!(build_display_range(&vec![], &vec![]), "");
}
