use pdiff::annotation::Annotation;
use pdiff::app::App;
use pdiff::diff_model::{DiffFile, DiffLine, Hunk, LineType};
use pdiff::mode::Mode;
use pdiff::render_text::{file_header, format_lineno, short_filename, short_filename_ok, CommandLine, ContentStyle};
use pdiff::text::{chars_of, contains_chars, count_lines, decimal_string, is_whitespace, string_from_chars, trims_to_empty};

fn line(kind: LineType, content: &str) -> DiffLine {
    DiffLine { kind, content: content.to_string(), old_lineno: Some(1), new_lineno: Some(1) }
}

fn file(path: &str, lines: Vec<DiffLine>) -> DiffFile {
    DiffFile {
        path: path.to_string(),
        old_path: None,
        hunks: vec![Hunk { old_start: 1, new_start: 1, header: "@@".to_string(), lines }],
        is_new: false,
        is_deleted: false,
        is_binary: false,
    }
}

fn app() -> App {
    App::new(vec![
        file("src/deeply/nested/module/file_name.rs", vec![line(LineType::Addition, "a"), line(LineType::Addition, "b"), line(LineType::Deletion, "c")]),
        file("short.rs", vec![line(LineType::Context, "d")]),
    ])
}

#[test]
fn short_filename_keeps_paths_that_fit() {
    assert_eq!(short_filename("src/main.rs", 11), "src/main.rs");
    assert_eq!(short_filename("", 0), "");
}

#[test]
fn short_filename_shows_the_name_after_an_ellipsis() {
    assert_eq!(short_filename("src/deeply/nested/main.rs", 12), "…/main.rs");
    assert_eq!(short_filename("src/deeply/nested/file_name.rs", 8), "…name.rs");
    assert_eq!(short_filename("a_very_long_name.rs", 6), "…me.rs");
    assert_eq!(short_filename("dir/", 3), "…/");
}

#[test]
fn short_filename_cuts_by_bytes() {
    // "é" takes two bytes: the cut must land on a character boundary
    assert!(short_filename_ok("dir/éa.rs", 5));
    assert_eq!(short_filename("dir/éa.rs", 5), "…a.rs");
    assert!(!short_filename_ok("dir/aé.rs", 5));
    assert!(short_filename_ok("dir/éé.rs", 4));
    assert_eq!(short_filename("dir/éé.rs", 4), "….rs");
    assert!(!short_filename_ok("dir/éé.rs", 5));
    assert!(!short_filename_ok("abc", 0));
    assert!(short_filename_ok("", 0));
}

#[test]
fn line_numbers_are_right_aligned() {
    assert_eq!(format_lineno(Some(7)), "   7 ");
    assert_eq!(format_lineno(Some(1234)), "1234 ");
    assert_eq!(format_lineno(Some(123456)), "123456 ");
    assert_eq!(format_lineno(Some(0)), "   0 ");
    assert_eq!(format_lineno(None), "     ");
}

#[test]
fn file_headers_show_renames() {
    let mut f = file("new.rs", vec![]);
    assert_eq!(file_header(&f), " new.rs");
    f.old_path = Some("old.rs".to_string());
    assert_eq!(file_header(&f), " old.rs → new.rs");
}

#[test]
fn file_list_summary_totals() {
    let a = app();
    let s = a.file_list_summary();
    assert_eq!(s.files, "2 files ");
    assert_eq!(s.adds, "+2");
    assert_eq!(s.dels, "-1");
}

#[test]
fn file_list_entries_mark_the_active_file() {
    let mut a = app();
    a.cursor = 3;
    assert!(a.file_list_ok(20));
    let e = a.file_list_entries(20);
    assert_eq!(e.len(), 2);
    assert!(!e[0].active);
    assert_eq!(e[0].marker, "  ");
    assert_eq!(e[0].name, "…ile_name.rs");
    assert_eq!(e[0].adds, " +2");
    assert_eq!(e[0].dels, " -1");
    assert!(e[1].active);
    assert_eq!(e[1].marker, "▶ ");
    assert_eq!(e[1].name, "short.rs");
    assert_eq!(e[1].adds, "");
    assert_eq!(e[1].dels, "");
}

#[test]
fn status_line_parts() {
    let mut a = app();
    a.cursor = 1;
    let s = a.status_line();
    assert_eq!(s.mode, " NORMAL ");
    assert_eq!(s.file, " src/deeply/nested/module/file_name.rs ");
    assert_eq!(s.annotations, "");
    assert_eq!(s.search, "");
    assert_eq!(s.position, " 2/4 ");
    a.annotations.push(Annotation {
        file: String::new(),
        flat_start: 0,
        flat_end: 0,
        display_range: String::new(),
        diff_context: String::new(),
        comment: "x".to_string(),
    });
    a.search_query = "b".to_string();
    a.search_matches = vec![1, 3];
    a.mode = Mode::VisualLine { anchor: 0 };
    let s = a.status_line();
    assert_eq!(s.mode, " V-LINE ");
    assert_eq!(s.annotations, " [1]");
    assert_eq!(s.search, " /b (1/2)");
    a.cursor = 4;
    let s = a.status_line();
    assert_eq!(s.file, "  ");
    assert_eq!(s.position, " 5/4 ");
}

#[test]
fn command_line_by_mode() {
    let mut a = app();
    assert!(matches!(a.command_line(), CommandLine::Hint { hint } if hint == "q:quit  V:visual  /:search  ]c/[c:hunk  Tab:layout"));
    a.mode = Mode::VisualLine { anchor: 0 };
    assert!(matches!(a.command_line(), CommandLine::Hint { hint } if hint == "c:comment  Esc:cancel  j/k:extend"));
    a.mode = Mode::VisualBlock { anchor: (0, 0) };
    assert!(matches!(a.command_line(), CommandLine::Hint { hint } if hint.is_empty()));
    a.mode = Mode::Command;
    a.search_query = "abc".to_string();
    assert!(matches!(a.command_line(), CommandLine::Search { query } if query == "abc"));
    a.mode = Mode::CommentNormal;
    a.comment_buf = "hey".to_string();
    assert!(matches!(a.command_line(), CommandLine::Comment { text } if text == "hey"));
}

#[test]
fn content_style_by_line() {
    let mut a = app();
    a.cursor = 2;
    assert_eq!(a.content_style(2), ContentStyle::Cursor);
    assert_eq!(a.content_style(1), ContentStyle::Syntax);
    a.mode = Mode::VisualLine { anchor: 0 };
    assert_eq!(a.content_style(1), ContentStyle::Selected);
    assert_eq!(a.content_style(3), ContentStyle::Syntax);
}

#[test]
fn decimal_strings() {
    assert_eq!(decimal_string(0), "0");
    assert_eq!(decimal_string(9), "9");
    assert_eq!(decimal_string(10), "10");
    assert_eq!(decimal_string(18446744073709551615), "18446744073709551615");
}

#[test]
fn line_count_matches_str_lines() {
    for s in ["", "a", "a\n", "a\nb", "a\n\nb\n", "\n", "\n\n", "a\r\nb"] {
        assert_eq!(count_lines(s), s.lines().count(), "{:?}", s);
    }
}

#[test]
fn whitespace_matches_std_for_every_char() {
    for u in 0..=0x10ffffu32 {
        if let Some(c) = char::from_u32(u) {
            assert_eq!(is_whitespace(c), c.is_whitespace(), "{:x}", u);
        }
    }
    assert!(trims_to_empty(" \t\n\u{3000}"));
    assert!(trims_to_empty(""));
    assert!(!trims_to_empty(" x "));
}

#[test]
fn substring_search() {
    let s = chars_of("hello world");
    assert!(contains_chars(&s, &chars_of("lo w")));
    assert!(contains_chars(&s, &chars_of("")));
    assert!(contains_chars(&s, &chars_of("hello world")));
    assert!(!contains_chars(&s, &chars_of("world!")));
    assert!(!contains_chars(&chars_of(""), &chars_of("a")));
    assert_eq!(string_from_chars(&chars_of("héllo")), "héllo");
}
