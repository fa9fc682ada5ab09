use pdiff::annotation::Annotation;
use pdiff::app::{build_file_starts, build_flat_lines, App, FlatLine};
use pdiff::diff_model::{DiffFile, DiffLine, Hunk, LineType};
use pdiff::mode::Mode;

fn line(kind: LineType, content: &str, old: Option<u32>, new: Option<u32>) -> DiffLine {
    DiffLine { kind, content: content.to_string(), old_lineno: old, new_lineno: new }
}

fn hunk(header: &str, lines: Vec<DiffLine>) -> Hunk {
    Hunk { old_start: 1, new_start: 1, header: header.to_string(), lines }
}

fn file(path: &str, hunks: Vec<Hunk>) -> DiffFile {
    DiffFile { path: path.to_string(), old_path: None, hunks, is_new: false, is_deleted: false, is_binary: false }
}

fn sample() -> Vec<DiffFile> {
    vec![
        file(
            "src/a.rs",
            vec![
                hunk(
                    "@@ -1,3 +1,3 @@",
                    vec![
                        line(LineType::Context, "fn a() {", Some(1), Some(1)),
                        line(LineType::Deletion, "    old();", Some(2), None),
                        line(LineType::Addition, "    new();", None, Some(2)),
                    ],
                ),
                hunk("@@ -10,1 +10,2 @@", vec![
                    line(LineType::Context, "}", Some(10), Some(10)),
                    line(LineType::Addition, "// end", None, Some(11)),
                ]),
            ],
        ),
        file("b.txt", vec![hunk("@@ -1 +1 @@", vec![line(LineType::Deletion, "x", Some(1), None)])]),
    ]
}

#[test]
fn prefix_of_each_kind() {
    assert_eq!(LineType::Addition.prefix(), "+");
    assert_eq!(LineType::Deletion.prefix(), "-");
    assert_eq!(LineType::Context.prefix(), " ");
}

#[test]
fn label_of_each_mode() {
    assert_eq!(Mode::Normal.label(), "NORMAL");
    assert_eq!(Mode::VisualLine { anchor: 3 }.label(), "V-LINE");
    assert_eq!(Mode::VisualBlock { anchor: (1, 2) }.label(), "V-BLOCK");
    assert_eq!(Mode::CommentInsert.label(), "COMMENT");
    assert_eq!(Mode::CommentNormal.label(), "COMMENT");
    assert_eq!(Mode::Command.label(), "COMMAND");
}

#[test]
fn line_counts_count_additions_and_deletions() {
    let files = sample();
    assert_eq!(files[0].line_counts(), (2, 1));
    assert_eq!(files[1].line_counts(), (0, 1));
    assert_eq!(file("empty", vec![]).line_counts(), (0, 0));
}

#[test]
fn flat_lines_enumerate_every_line_in_order() {
    let files = sample();
    let flat = build_flat_lines(&files);
    let got: Vec<(usize, usize, usize)> = flat.iter().map(|f| (f.file_idx, f.hunk_idx, f.line_idx)).collect();
    assert_eq!(got, vec![(0, 0, 0), (0, 0, 1), (0, 0, 2), (0, 1, 0), (0, 1, 1), (1, 0, 0)]);
    assert!(build_flat_lines(&[]).is_empty());
}

#[test]
fn file_starts_mark_where_files_begin() {
    let files = sample();
    let flat = build_flat_lines(&files);
    assert_eq!(build_file_starts(&flat), vec![0, 5]);
    let odd = [
        FlatLine { file_idx: 2, hunk_idx: 0, line_idx: 0 },
        FlatLine { file_idx: 2, hunk_idx: 0, line_idx: 1 },
        FlatLine { file_idx: 0, hunk_idx: 0, line_idx: 0 },
        FlatLine { file_idx: 2, hunk_idx: 0, line_idx: 0 },
    ];
    assert_eq!(build_file_starts(&odd), vec![0, 2, 3]);
}

#[test]
fn new_session_starts_at_top() {
    let app = App::new(sample());
    assert_eq!(app.cursor, 0);
    assert_eq!(app.scroll_offset, 0);
    assert_eq!(app.mode, Mode::Normal);
    assert_eq!(app.line_counts, vec![(2, 1), (0, 1)]);
    assert_eq!(app.file_starts, vec![0, 5]);
    assert!(app.show_file_list);
    assert!(!app.show_comments);
    assert_eq!(app.total_lines(), 6);
}

#[test]
fn get_line_follows_the_flat_index() {
    let app = App::new(sample());
    assert_eq!(app.get_line(2).unwrap().content, "    new();");
    assert_eq!(app.get_line(5).unwrap().content, "x");
    assert!(app.get_line(6).is_none());
    assert_eq!(app.get_flat(3).map(|f| (f.file_idx, f.hunk_idx, f.line_idx)), Some((0, 1, 0)));
    assert!(app.get_flat(9).is_none());
    assert_eq!(app.file_for_line(5).unwrap().path, "b.txt");
    assert!(app.file_for_line(6).is_none());
}

#[test]
fn active_file_and_selection() {
    let mut app = App::new(sample());
    assert_eq!(app.active_file_idx(), Some(0));
    app.cursor = 5;
    assert_eq!(app.active_file_idx(), Some(1));
    app.cursor = 6;
    assert_eq!(app.active_file_idx(), None);
    app.cursor = 1;
    assert_eq!(app.selection_range(), None);
    app.mode = Mode::VisualLine { anchor: 4 };
    assert_eq!(app.selection_range(), Some((1, 4)));
    app.cursor = 5;
    assert_eq!(app.selection_range(), Some((4, 5)));
}

#[test]
fn annotation_fields_hold_their_values() {
    let a = Annotation {
        file: "f".to_string(),
        flat_start: 1,
        flat_end: 2,
        display_range: "1-2".to_string(),
        diff_context: " a\n+b".to_string(),
        comment: "c".to_string(),
    };
    let b = a.clone();
    assert_eq!(b.flat_end, 2);
    assert_eq!(b.diff_context, " a\n+b");
}

#[test]
fn only_pi_is_a_supported_target() {
    assert!(pdiff::extension::supported_target("pi"));
    assert!(!pdiff::extension::supported_target("vim"));
    assert!(!pdiff::extension::supported_target(""));
    assert!(!pdiff::extension::supported_target("pi "));
}
