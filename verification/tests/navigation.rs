use pdiff::app::{App, Side, ViewLayout};
use pdiff::diff_model::{DiffFile, DiffLine, Hunk, LineType};
use pdiff::keys::{KeyCode, KeyPress};
use pdiff::mode::Mode;
use pdiff::nav::NavAction;

fn line(kind: LineType, content: &str, old: Option<u32>, new: Option<u32>) -> DiffLine {
    DiffLine { kind, content: content.to_string(), old_lineno: old, new_lineno: new }
}

fn hunk(lines: Vec<DiffLine>) -> Hunk {
    Hunk { old_start: 1, new_start: 1, header: "@@ -1 +1 @@".to_string(), lines }
}

fn file(path: &str, hunks: Vec<Hunk>) -> DiffFile {
    DiffFile { path: path.to_string(), old_path: None, hunks, is_new: false, is_deleted: false, is_binary: false }
}

/// Three files: a.rs (hunks of 3 and 2 lines), b.rs (1 hunk of 2), c.rs (1 hunk of 1).
fn app() -> App {
    App::new(vec![
        file(
            "a.rs",
            vec![
                hunk(vec![
                    line(LineType::Context, "one", Some(1), Some(1)),
                    line(LineType::Deletion, "two", Some(2), None),
                    line(LineType::Addition, "TWO", None, Some(2)),
                ]),
                hunk(vec![
                    line(LineType::Context, "nine", Some(9), Some(9)),
                    line(LineType::Addition, "ten", None, Some(10)),
                ]),
            ],
        ),
        file("b.rs", vec![hunk(vec![
            line(LineType::Deletion, "bee", Some(4), None),
            line(LineType::Context, "two bees", Some(5), Some(4)),
        ])]),
        file("c.rs", vec![hunk(vec![line(LineType::Addition, "sea", None, Some(1))])]),
    ])
}

fn ch(c: char) -> KeyPress {
    KeyPress { code: KeyCode::Char(c), ctrl: false, shift: false }
}

fn ctrl(c: char) -> KeyPress {
    KeyPress { code: KeyCode::Char(c), ctrl: true, shift: false }
}

fn key(code: KeyCode) -> KeyPress {
    KeyPress { code, ctrl: false, shift: false }
}

fn press(app: &mut App, k: KeyPress) {
    app.handle_key(k, 12);
}

#[test]
fn j_and_k_move_within_bounds() {
    let mut a = app();
    press(&mut a, ch('k'));
    assert_eq!(a.cursor, 0);
    press(&mut a, ch('j'));
    press(&mut a, key(KeyCode::Down));
    assert_eq!(a.cursor, 2);
    press(&mut a, key(KeyCode::Up));
    assert_eq!(a.cursor, 1);
    for _ in 0..20 {
        press(&mut a, ch('j'));
    }
    assert_eq!(a.cursor, 7);
}

#[test]
fn gg_goes_to_top_and_g_to_bottom() {
    let mut a = app();
    press(&mut a, ch('G'));
    assert_eq!(a.cursor, 7);
    press(&mut a, ch('g'));
    assert_eq!(a.pending_keys, vec!['g']);
    assert_eq!(a.cursor, 7);
    press(&mut a, ch('g'));
    assert_eq!(a.cursor, 0);
    assert!(a.pending_keys.is_empty());
}

#[test]
fn pending_g_swallows_the_next_key() {
    let mut a = app();
    a.cursor = 3;
    press(&mut a, ch('g'));
    press(&mut a, ch('j'));
    assert_eq!(a.cursor, 3);
    assert!(a.pending_keys.is_empty());
    press(&mut a, ch('g'));
    press(&mut a, key(KeyCode::Esc));
    assert_eq!(a.cursor, 3);
    assert!(a.pending_keys.is_empty());
}

#[test]
fn half_page_moves_and_centers() {
    let mut a = app();
    // a 12-row terminal leaves 10 rows for the diff: half a page is 5 lines
    press(&mut a, ctrl('d'));
    assert_eq!(a.cursor, 5);
    assert_eq!(a.scroll_offset, 0);
    press(&mut a, ctrl('d'));
    assert_eq!(a.cursor, 7);
    assert_eq!(a.scroll_offset, 2);
    press(&mut a, ctrl('u'));
    assert_eq!(a.cursor, 2);
    assert_eq!(a.scroll_offset, 0);
    // without ctrl, d and u do nothing
    press(&mut a, ch('d'));
    assert_eq!(a.cursor, 2);
}

#[test]
fn brackets_jump_between_hunks() {
    let mut a = app();
    press(&mut a, ch(']'));
    assert_eq!(a.cursor, 3);
    press(&mut a, ch(']'));
    assert_eq!(a.cursor, 5);
    press(&mut a, ch(']'));
    assert_eq!(a.cursor, 7);
    press(&mut a, ch(']'));
    assert_eq!(a.cursor, 7);
    a.cursor = 6;
    press(&mut a, ch('['));
    assert_eq!(a.cursor, 3);
    press(&mut a, ch('['));
    assert_eq!(a.cursor, 0);
    press(&mut a, ch('['));
    assert_eq!(a.cursor, 0);
}

#[test]
fn shift_h_and_l_jump_between_files() {
    let mut a = app();
    press(&mut a, ch('H'));
    assert_eq!(a.cursor, 5);
    press(&mut a, ch('H'));
    assert_eq!(a.cursor, 7);
    press(&mut a, ch('H'));
    assert_eq!(a.cursor, 7);
    press(&mut a, ch('L'));
    assert_eq!(a.cursor, 5);
    a.cursor = 6;
    press(&mut a, ch('L'));
    assert_eq!(a.cursor, 0);
    // in visual mode H does nothing
    a.cursor = 1;
    a.mode = Mode::VisualLine { anchor: 1 };
    press(&mut a, ch('H'));
    assert_eq!(a.cursor, 1);
}

#[test]
fn focus_sides_and_toggles() {
    let mut a = app();
    press(&mut a, ch('h'));
    assert_eq!(a.focus_side, Side::Left);
    press(&mut a, ch('l'));
    assert_eq!(a.focus_side, Side::Right);
    press(&mut a, ch('e'));
    assert!(!a.show_file_list);
    press(&mut a, ch('e'));
    assert!(a.show_file_list);
    press(&mut a, ch('E'));
    assert!(a.show_comments);
    press(&mut a, ch('E'));
    assert!(!a.show_comments);
    press(&mut a, key(KeyCode::Tab));
    assert!(matches!(a.layout, ViewLayout::Unified));
    press(&mut a, key(KeyCode::Tab));
    assert!(matches!(a.layout, ViewLayout::SideBySide));
    press(&mut a, ch('q'));
    assert!(a.should_quit);
}

#[test]
fn focus_mode_snaps_off_hidden_lines() {
    let mut a = app();
    // the right side hides deletions: line 1 is a deletion, the next shown line is 2
    a.cursor = 1;
    press(&mut a, ch('F'));
    assert!(a.focus_mode);
    assert_eq!(a.cursor, 2);
    press(&mut a, ch('F'));
    assert!(!a.focus_mode);
    // the left side hides additions: the last line is one, and only earlier lines show
    a.cursor = 7;
    press(&mut a, ch('h'));
    press(&mut a, ch('F'));
    assert_eq!(a.cursor, 6);
}

#[test]
fn visual_mode_and_escape() {
    let mut a = app();
    a.cursor = 2;
    press(&mut a, ch('V'));
    assert_eq!(a.mode, Mode::VisualLine { anchor: 2 });
    press(&mut a, ch('j'));
    press(&mut a, ch('j'));
    assert_eq!(a.selection_range(), Some((2, 4)));
    press(&mut a, key(KeyCode::Esc));
    assert_eq!(a.mode, Mode::Normal);
    assert_eq!(a.selection_range(), None);
}

#[test]
fn nav_action_reads_keys_by_mode() {
    let mut a = app();
    assert_eq!(a.nav_action(ch('q')), NavAction::Quit);
    assert_eq!(a.nav_action(ctrl('d')), NavAction::HalfPageDown);
    assert_eq!(a.nav_action(ch('d')), NavAction::Nothing);
    assert_eq!(a.nav_action(key(KeyCode::Tab)), NavAction::ToggleLayout);
    assert_eq!(a.nav_action(key(KeyCode::Other)), NavAction::Nothing);
    a.mode = Mode::VisualLine { anchor: 0 };
    assert_eq!(a.nav_action(ch('c')), NavAction::StartComment);
    assert_eq!(a.nav_action(ch('n')), NavAction::Nothing);
    a.pending_keys.push('g');
    assert_eq!(a.nav_action(ch('g')), NavAction::FinishPending { top: true });
    assert_eq!(a.nav_action(key(KeyCode::Enter)), NavAction::FinishPending { top: false });
}

#[test]
fn search_finds_lines_ignoring_case_and_n_cycles() {
    let mut a = app();
    press(&mut a, ch('/'));
    assert_eq!(a.mode, Mode::Command);
    for c in "TWo".chars() {
        press(&mut a, ch(c));
    }
    assert_eq!(a.search_query, "TWo");
    press(&mut a, key(KeyCode::Enter));
    assert_eq!(a.mode, Mode::Normal);
    assert_eq!(a.search_matches, vec![1, 2, 6]);
    assert_eq!(a.cursor, 1);
    press(&mut a, ch('n'));
    assert_eq!(a.cursor, 2);
    press(&mut a, ch('n'));
    assert_eq!(a.cursor, 6);
    press(&mut a, ch('n'));
    assert_eq!(a.cursor, 1);
    press(&mut a, ch('N'));
    assert_eq!(a.cursor, 6);
    press(&mut a, ch('N'));
    assert_eq!(a.cursor, 2);
}

#[test]
fn search_editing_keys() {
    let mut a = app();
    press(&mut a, ch('/'));
    press(&mut a, ch('x'));
    press(&mut a, ch('y'));
    press(&mut a, key(KeyCode::Backspace));
    assert_eq!(a.search_query, "x");
    press(&mut a, key(KeyCode::Esc));
    assert_eq!(a.mode, Mode::Normal);
    assert_eq!(a.search_query, "");
    // an empty query finds nothing and leaves the cursor
    a.cursor = 4;
    press(&mut a, ch('/'));
    press(&mut a, key(KeyCode::Enter));
    assert!(a.search_matches.is_empty());
    assert_eq!(a.cursor, 4);
}

#[test]
fn search_ignores_unicode_case() {
    let mut a = App::new(vec![file("u", vec![hunk(vec![
        line(LineType::Context, "ÀÉÎ straße", Some(1), Some(1)),
        line(LineType::Context, "plain", Some(2), Some(2)),
    ])])]);
    a.search_query = "àéî".to_string();
    a.build_search_matches();
    assert_eq!(a.search_matches, vec![0]);
    assert_eq!(a.search(""), Vec::<usize>::new());
    assert_eq!(a.search("PLAIN"), vec![1]);
}

#[test]
fn empty_view_keeps_cursor_at_zero() {
    let mut a = App::new(vec![]);
    press(&mut a, ch('j'));
    press(&mut a, ch('G'));
    press(&mut a, ch(']'));
    press(&mut a, ch('['));
    press(&mut a, ch('H'));
    press(&mut a, ch('L'));
    assert_eq!(a.cursor, 0);
    assert_eq!(a.total_lines(), 0);
}
