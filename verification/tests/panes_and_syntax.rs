use pdiff::highlight::{file_extension, spans_from_regions, Highlighter, Region, SyntaxStyle};
use pdiff::text::split_lines;
use pdiff::tmux::{parse_pane, parse_panes};

#[test]
fn panes_are_read_from_tab_separated_lines() {
    let out = "%1\tmain:0.0\tvim\tnvim\n%2\tmain:0.1\tzsh\tzsh\n%3\tmain:1.0\tpi\tnode\tx\n";
    let panes = parse_panes(out, Some("%2"));
    assert_eq!(panes.len(), 2);
    assert_eq!(panes[0].id, "%1");
    assert_eq!(panes[0].label, "%1  main:0.0  vim  [nvim]");
    assert_eq!(panes[1].id, "%3");
    assert_eq!(panes[1].label, "%3  main:1.0  pi  [node\tx]");
}

#[test]
fn pane_lines_with_too_few_fields_are_skipped() {
    let out = "%1\tmain:0.0\tvim\n\n%4\ta\tb\t\r\nnot a pane";
    let panes = parse_panes(out, None);
    assert_eq!(panes.len(), 1);
    assert_eq!(panes[0].id, "%4");
    assert_eq!(panes[0].label, "%4  a  b  []");
    assert!(parse_pane(&"a\tb".chars().collect()).is_none());
}

#[test]
fn lines_split_like_str_lines() {
    for s in ["", "a", "a\n", "a\r\nb", "a\n\nb", "\n", "x\r", "x\r\n\r\n"] {
        let got: Vec<String> = split_lines(s).iter().map(|v| v.iter().collect()).collect();
        let want: Vec<String> = s.lines().map(|l| l.to_string()).collect();
        assert_eq!(got, want, "{:?}", s);
    }
}

#[test]
fn extensions() {
    assert_eq!(file_extension("src/main.rs"), "rs");
    assert_eq!(file_extension("archive.tar.gz"), "gz");
    assert_eq!(file_extension("Makefile"), "Makefile");
    assert_eq!(file_extension("dir.d/"), "d/");
    assert_eq!(file_extension("trailing."), "");
}

#[test]
fn regions_become_spans() {
    let plain = SyntaxStyle { r: 1, g: 2, b: 3, font_bits: 0 };
    let fancy = SyntaxStyle { r: 9, g: 8, b: 7, font_bits: 1 | 2 | 4 };
    let regions = vec![
        Region { style: fancy, text: "fn".to_string() },
        Region { style: plain, text: "".to_string() },
        Region { style: plain, text: " main\n".to_string() },
        Region { style: fancy, text: "\n".to_string() },
    ];
    let spans = spans_from_regions(&regions);
    assert_eq!(spans.len(), 2);
    assert_eq!(spans[0].text, "fn");
    let s0 = spans[0].style.unwrap();
    assert!(s0.bold && s0.italic && s0.underline);
    assert_eq!((s0.fg_r, s0.fg_g, s0.fg_b), (9, 8, 7));
    assert_eq!(spans[1].text, " main");
    let s1 = spans[1].style.unwrap();
    assert!(!s1.bold && !s1.italic && !s1.underline);
}

#[test]
fn highlighting_keeps_the_text() {
    let h = Highlighter::new();
    for (content, path) in [("fn main() { let x = 1; }", "src/main.rs"), ("# Title", "README.md"), ("plain words", "notes.unknownext"), ("", "a.rs")] {
        let spans = h.highlight_line(content, path);
        let joined: String = spans.iter().map(|s| s.text.as_str()).collect();
        assert_eq!(joined, content);
    }
    let spans = h.highlight_line("fn main() {}", "x.rs");
    assert!(spans.len() > 1);
    assert!(spans.iter().all(|s| s.style.is_some()));
}

#[test]
fn unknown_extension_is_left_unstyled() {
    let h = Highlighter::new();
    let spans = h.highlight_line("let x = 1;", "notes.unknownext");
    assert_eq!(spans.len(), 1);
    assert_eq!(spans[0].text, "let x = 1;");
    assert!(spans[0].style.is_none());
    let spans = h.highlight_line("fn f() {}", "Makefile_without_dot");
    assert_eq!(spans.len(), 1);
    assert!(spans[0].style.is_none());
}
