use pdiff::annotation::Annotation;
use pdiff::app::App;
use pdiff::diff_model::{DiffFile, DiffLine, Hunk, LineType};
use pdiff::render_text::PanelCell;
use pdiff::viewport::RowKind;

fn line(kind: LineType, content: &str) -> DiffLine {
    DiffLine { kind, content: content.to_string(), old_lineno: Some(1), new_lineno: Some(1) }
}

fn hunk(n: usize) -> Hunk {
    Hunk { old_start: 1, new_start: 1, header: "@@".to_string(), lines: (0..n).map(|i| line(LineType::Context, &format!("l{}", i))).collect() }
}

fn file(path: &str, hunks: Vec<Hunk>) -> DiffFile {
    DiffFile { path: path.to_string(), old_path: None, hunks, is_new: false, is_deleted: false, is_binary: false }
}

/// a.rs: hunks of 3 and 2 lines; b.rs: one hunk of 2 lines.
fn app() -> App {
    App::new(vec![file("a.rs", vec![hunk(3), hunk(2)]), file("b.rs", vec![hunk(2)])])
}

fn ann(start: usize, end: usize, comment: &str) -> Annotation {
    Annotation {
        file: "a.rs".to_string(),
        flat_start: start,
        flat_end: end,
        display_range: String::new(),
        diff_context: String::new(),
        comment: comment.to_string(),
    }
}

#[test]
fn rows_count_headers_and_lines() {
    let a = app();
    // file header, hunk header, 3 lines, hunk header, 2 lines, file header, hunk header, 2 lines
    assert_eq!(a.rendered_rows_between(0, 6), 12);
    assert_eq!(a.rendered_rows_between(0, 0), 3);
    assert_eq!(a.rendered_rows_between(1, 2), 3);
    assert_eq!(a.rendered_rows_between(3, 3), 3);
    assert_eq!(a.rendered_rows_between(2, 100), 9);
    assert_eq!(a.rendered_rows_between(7, 9), 0);
    assert_eq!(App::new(vec![]).rendered_rows_between(0, 5), 0);
}

#[test]
fn rows_count_comments_only_before_the_target() {
    let mut a = app();
    a.annotations.push(ann(1, 2, "two\nlines"));
    a.annotations.push(ann(2, 2, "shadowed"));
    assert_eq!(a.rendered_rows_between(0, 6), 12);
    a.show_comments = true;
    assert_eq!(a.rendered_rows_between(0, 6), 14);
    // the comment after line 2 is not counted when line 2 is the target
    assert_eq!(a.rendered_rows_between(0, 2), 5);
    assert_eq!(a.rendered_rows_between(0, 3), 9);
}

#[test]
fn rows_never_grow_when_starting_later() {
    let mut a = app();
    a.annotations.push(ann(0, 3, "c\nc\nc"));
    a.show_comments = true;
    let mut last = usize::MAX;
    for from in 0..=6 {
        let r = a.rendered_rows_between(from, 6);
        assert!(r <= last);
        last = r;
    }
}

#[test]
fn ensure_visible_scrolls_up_to_the_cursor() {
    let mut a = app();
    a.scroll_offset = 5;
    a.cursor = 2;
    a.ensure_visible(4);
    assert_eq!(a.scroll_offset, 2);
}

#[test]
fn ensure_visible_scrolls_down_the_least() {
    let mut a = app();
    a.cursor = 6;
    a.ensure_visible(100);
    assert_eq!(a.scroll_offset, 0);
    a.ensure_visible(5);
    // from line 4 on it takes 6 rows (two file headers); from line 5 on, 4 rows
    assert_eq!(a.scroll_offset, 5);
    assert!(a.rendered_rows_between(a.scroll_offset, 6) <= 5);
    assert!(a.rendered_rows_between(a.scroll_offset - 1, 6) > 5);
    a.scroll_offset = 0;
    a.ensure_visible(1);
    assert_eq!(a.scroll_offset, 6);
}

#[test]
fn visible_rows_lay_out_headers_and_lines() {
    let a = app();
    let rows = a.visible_rows(100);
    assert_eq!(rows, vec![
        RowKind::FileHeader { file_idx: 0 },
        RowKind::HunkHeader { file_idx: 0, hunk_idx: 0 },
        RowKind::Line { flat_idx: 0 },
        RowKind::Line { flat_idx: 1 },
        RowKind::Line { flat_idx: 2 },
        RowKind::HunkHeader { file_idx: 0, hunk_idx: 1 },
        RowKind::Line { flat_idx: 3 },
        RowKind::Line { flat_idx: 4 },
        RowKind::FileHeader { file_idx: 1 },
        RowKind::HunkHeader { file_idx: 1, hunk_idx: 0 },
        RowKind::Line { flat_idx: 5 },
        RowKind::Line { flat_idx: 6 },
    ]);
    assert_eq!(a.visible_rows(4).len(), 4);
    assert!(a.visible_rows(0).is_empty());
}

#[test]
fn visible_rows_start_mid_hunk_with_a_file_header() {
    let mut a = app();
    a.scroll_offset = 4;
    assert_eq!(a.visible_rows(4), vec![
        RowKind::FileHeader { file_idx: 0 },
        RowKind::Line { flat_idx: 4 },
        RowKind::FileHeader { file_idx: 1 },
        RowKind::HunkHeader { file_idx: 1, hunk_idx: 0 },
    ]);
}

#[test]
fn cursor_line_is_drawn_after_ensure_visible() {
    let mut a = app();
    a.show_comments = true;
    a.annotations.push(ann(3, 3, "a\nb\nc\nd"));
    for height in 3..14 {
        for cursor in 0..7 {
            a.cursor = cursor;
            a.scroll_offset = 0;
            a.ensure_visible(height);
            assert!(a.visible_rows(height).contains(&RowKind::Line { flat_idx: cursor }));
        }
    }
}

#[test]
fn annotated_lines() {
    let mut a = app();
    a.annotations.push(ann(1, 3, "x"));
    assert!(!a.is_annotated(0));
    assert!(a.is_annotated(1));
    assert!(a.is_annotated(3));
    assert!(!a.is_annotated(4));
}

#[test]
fn panel_cells_by_line_kind() {
    let lines = vec![
        DiffLine { kind: LineType::Context, content: "c".to_string(), old_lineno: Some(3), new_lineno: Some(4) },
        DiffLine { kind: LineType::Deletion, content: "d".to_string(), old_lineno: Some(5), new_lineno: None },
        DiffLine { kind: LineType::Addition, content: "a".to_string(), old_lineno: None, new_lineno: Some(6) },
    ];
    let h = Hunk { old_start: 3, new_start: 4, header: "@@".to_string(), lines };
    let mut a = App::new(vec![file("a.rs", vec![h])]);
    a.annotations.push(ann(0, 2, "note"));
    assert_eq!(a.panel_cells(0), Some((PanelCell::Line { lineno: Some(3), marked: true }, PanelCell::Line { lineno: Some(4), marked: false })));
    assert_eq!(a.panel_cells(1), Some((PanelCell::Line { lineno: Some(5), marked: true }, PanelCell::Blank)));
    assert_eq!(a.panel_cells(2), Some((PanelCell::Blank, PanelCell::Line { lineno: Some(6), marked: true })));
    assert_eq!(a.panel_cells(3), None);
    a.annotations.clear();
    assert_eq!(a.panel_cells(1), Some((PanelCell::Line { lineno: Some(5), marked: false }, PanelCell::Blank)));
}

#[test]
fn highlighted_spans_join_to_the_line() {
    let h = pdiff::highlight::Highlighter::new();
    let spans = h.highlight_line("", "a.rs");
    assert!(spans.iter().all(|s| !s.text.is_empty()));
    let joined: String = spans.iter().map(|s| s.text.as_str()).collect();
    assert_eq!(joined, "");
}
