use pdiff::annotation::Annotation;
use pdiff::diff_model::LineType;
use pdiff::diff_parse::parse_unified_diff;
use pdiff::markdown::to_markdown;

const GIT_DIFF: &str = "diff --git a/src/auth.rs b/src/auth.rs
index 1234567..89abcde 100644
--- a/src/auth.rs
+++ b/src/auth.rs
@@ -10,3 +10,3 @@ fn check(token: &str) -> bool {
 fn check(token: &str) -> bool {
-    true
+    token.len() > 0
 }
diff --git a/docs/new.md b/docs/new.md
new file mode 100644
index 0000000..1111111
--- /dev/null
+++ b/docs/new.md
@@ -0,0 +1,2 @@
+# New
+
diff --git a/gone.txt b/gone.txt
deleted file mode 100644
--- a/gone.txt
+++ /dev/null
@@ -1 +0,0 @@
-bye
\\ No newline at end of file
diff --git a/img.png b/img.png
Binary files a/img.png and b/img.png differ
diff --git a/old name.rs b/new name.rs
similarity index 90%
rename from old name.rs
rename to new name.rs
";

#[test]
fn parses_files_hunks_and_line_numbers() {
    let files = parse_unified_diff(GIT_DIFF);
    assert_eq!(files.len(), 5);
    let f = &files[0];
    assert_eq!(f.path, "src/auth.rs");
    assert_eq!(f.old_path, None);
    assert_eq!(f.hunks.len(), 1);
    let h = &f.hunks[0];
    assert_eq!((h.old_start, h.new_start), (10, 10));
    assert_eq!(h.header, "@@ -10,3 +10,3 @@ fn check(token: &str) -> bool {");
    let got: Vec<(LineType, &str, Option<u32>, Option<u32>)> =
        h.lines.iter().map(|l| (l.kind, l.content.as_str(), l.old_lineno, l.new_lineno)).collect();
    assert_eq!(got, vec![
        (LineType::Context, "fn check(token: &str) -> bool {", Some(10), Some(10)),
        (LineType::Deletion, "    true", Some(11), None),
        (LineType::Addition, "    token.len() > 0", None, Some(11)),
        (LineType::Context, "}", Some(12), Some(12)),
    ]);
    assert_eq!(f.line_counts(), (1, 1));
}

#[test]
fn parses_new_deleted_binary_and_renamed_files() {
    let files = parse_unified_diff(GIT_DIFF);
    let new = &files[1];
    assert_eq!(new.path, "docs/new.md");
    assert!(new.is_new);
    assert_eq!(new.hunks[0].lines.len(), 2);
    assert_eq!(new.hunks[0].lines[1].content, "");
    assert_eq!(new.hunks[0].lines[1].new_lineno, Some(2));
    let gone = &files[2];
    assert_eq!(gone.path, "gone.txt");
    assert!(gone.is_deleted);
    assert_eq!(gone.hunks[0].lines.len(), 1);
    assert_eq!(gone.hunks[0].lines[0].kind, LineType::Deletion);
    let bin = &files[3];
    assert!(bin.is_binary);
    assert!(bin.hunks.is_empty());
    let ren = &files[4];
    assert_eq!(ren.path, "new name.rs");
    assert_eq!(ren.old_path.as_deref(), Some("old name.rs"));
}

#[test]
fn parses_plain_diff_u_output() {
    let d = "--- a.txt\t2024-01-01 00:00:00\n+++ b.txt\t2024-01-02 00:00:00\n@@ -1,2 +1,2 @@\n-x\n+y\n z\n--- c.txt\n+++ c.txt\n@@ -5 +5 @@\n--- dashes\n+++ pluses\n";
    let files = parse_unified_diff(d);
    assert_eq!(files.len(), 2);
    assert_eq!(files[0].path, "b.txt");
    assert_eq!(files[0].old_path.as_deref(), Some("a.txt"));
    assert_eq!(files[0].hunks[0].lines.len(), 3);
    assert_eq!(files[1].path, "c.txt");
    assert_eq!(files[1].old_path, None);
    // a hunk's lines are read by its counts, so lines that look like headers stay lines
    let lines = &files[1].hunks[0].lines;
    assert_eq!(lines.len(), 2);
    assert_eq!(lines[0].kind, LineType::Deletion);
    assert_eq!(lines[0].content, "-- dashes");
    assert_eq!(lines[1].content, "++ pluses");
}

#[test]
fn ignores_text_that_is_not_a_diff() {
    assert!(parse_unified_diff("").is_empty());
    assert!(parse_unified_diff("hello\nworld\n").is_empty());
    let files = parse_unified_diff("@@ -1 +1 @@\n-a\n+b\n");
    assert_eq!(files.len(), 1);
    assert_eq!(files[0].path, "");
    assert!(parse_unified_diff("@@ -99999999999 +1 @@\n").is_empty());
}

fn ann(file: &str, range: &str, ctx: &str, comment: &str) -> Annotation {
    Annotation {
        file: file.to_string(),
        flat_start: 0,
        flat_end: 0,
        display_range: range.to_string(),
        diff_context: ctx.to_string(),
        comment: comment.to_string(),
    }
}

#[test]
fn markdown_output_matches_the_documented_format() {
    let md = to_markdown(&vec![ann("src/auth.rs", "10-12(new)", "+    token.len() > 0", "Should use proper JWT validation.")]);
    assert_eq!(md, "## Review Comments\n\n### src/auth.rs:10-12(new)\n> +    token.len() > 0\n\nShould use proper JWT validation.\n");
}

#[test]
fn markdown_quotes_each_context_line() {
    let md = to_markdown(&vec![ann("a", "", " x\n-y", "c1"), ann("b", "3(old)", "", "c2\nmore")]);
    assert_eq!(md, "## Review Comments\n\n### a\n>  x\n> -y\n\nc1\n\n### b:3(old)\n\nc2\nmore\n");
    assert_eq!(to_markdown(&vec![]), "## Review Comments\n");
}
