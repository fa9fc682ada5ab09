use vstd::prelude::*;

use syntect::easy::HighlightLines;
use syntect::highlighting::Theme;
use syntect::parsing::SyntaxSet;

use crate::text::{chars_of, push_char, push_str, string_from_chars};

verus! {

#[verifier::external_type_specification]
#[verifier::external_body]
pub struct ExSyntaxSet(SyntaxSet);

#[verifier::external_type_specification]
#[verifier::external_body]
pub struct ExTheme(Theme);

#[verifier::external_type_specification]
#[verifier::external_body]
pub struct ExSyntectError(syntect::Error);

/// The style that a theme gives a run of text: its foreground color and its font style bits.
#[derive(Debug, Clone, Copy, PartialEq, Eq, Structural)]
pub struct SyntaxStyle {
    pub r: u8,
    pub g: u8,
    pub b: u8,
    pub font_bits: u8,
}

/// A run of text of one line with the style the highlighter gives it.
pub struct Region {
    pub style: SyntaxStyle,
    pub text: String,
}

/// The names of the themes that `ThemeSet::load_defaults` documents.
pub open spec fn is_default_theme(name: Seq<char>) -> bool {
    name == "base16-ocean.dark"@ || name == "base16-eighties.dark"@ || name == "base16-mocha.dark"@
        || name == "base16-ocean.light"@ || name == "InspiredGitHub"@ || name == "Solarized (dark)"@
        || name == "Solarized (light)"@
}

/// A run as a plain value: its style and its text.
pub open spec fn region_pair(r: Region) -> (SyntaxStyle, Seq<char>) {
    (r.style, r.text@)
}

/// The runs as plain values.
pub open spec fn region_pairs(v: Seq<Region>) -> Seq<(SyntaxStyle, Seq<char>)> {
    v.map_values(|r: Region| region_pair(r))
}

/// The texts of the runs, one after another.
pub open spec fn pairs_text(runs: Seq<(SyntaxStyle, Seq<char>)>) -> Seq<char>
    decreases runs.len(),
{
    if runs.len() == 0 {
        seq![]
    } else {
        pairs_text(runs.drop_last()) + runs.last().1
    }
}

/// Whether `SyntaxSet::find_syntax_by_extension` finds a syntax for `ext` in the bundled
/// syntax set.
pub uninterp spec fn known_extension(ext: Seq<char>) -> bool;

/// What `HighlightLines::highlight_line` gives for `line`, with a fresh highlighter for the
/// syntax that the bundled set has for `ext` and the `base16-eighties.dark` theme: the
/// styled runs, or `None` where it fails.
pub uninterp spec fn highlighted(ext: Seq<char>, line: Seq<char>) -> Option<Seq<(SyntaxStyle, Seq<char>)>>;

/// `SyntaxSet::load_defaults_newlines`: the syntaxes that syntect bundles, for lines
/// that end in a newline.
#[verifier::external_body]
fn load_syntax_set() -> SyntaxSet {
    SyntaxSet::load_defaults_newlines()
}

/// `ThemeSet::load_defaults`, and the theme named `name` in it. Its documentation lists the
/// bundled themes, so one of those names gives a theme.
#[verifier::external_body]
fn load_default_theme(name: &str) -> (r: Option<Theme>)
    ensures
        is_default_theme(name@) ==> r is Some,
{
    syntect::highlighting::ThemeSet::load_defaults().themes.get(name).cloned()
}

/// Highlights `line` for the syntax of extension `ext`: `SyntaxSet::find_syntax_by_extension`
/// on the highlighter's syntax set, then `HighlightLines::highlight_line` on a fresh
/// `HighlightLines` for that syntax and the highlighter's theme. A highlighter only ever holds
/// the bundled syntax set and the `base16-eighties.dark` theme (its one constructor loads
/// them), so what comes back depends on `ext` and `line` alone: `None` where no syntax has the
/// extension (`known_extension`), else the runs that `highlighted` names, or syntect's error
/// where that names none. `highlight_line` collects the tokens of a `HighlightIterator`, whose
/// documentation says that the tokens' strings, one after another, make up the line.
#[verifier::external_body]
fn highlight_by_extension(hl: &Highlighter, ext: &str, line: &str) -> (r: Option<Result<Vec<Region>, syntect::Error>>)
    ensures
        r is Some <==> known_extension(ext@),
        r matches Some(res) ==> (res is Ok <==> highlighted(ext@, line@) is Some),
        r matches Some(Ok(v)) ==> region_pairs(v@) == highlighted(ext@, line@)->0,
        r matches Some(Ok(v)) ==> pairs_text(region_pairs(v@)) == line@,
{
    match hl.syntax_set.find_syntax_by_extension(ext) {
        None => None,
        Some(syntax) => Some(HighlightLines::new(syntax, &hl.theme).highlight_line(line, &hl.syntax_set).map(|v| {
            v.into_iter().map(|(st, t)| Region {
                style: SyntaxStyle {
                    r: st.foreground.r,
                    g: st.foreground.g,
                    b: st.foreground.b,
                    font_bits: st.font_style.bits(),
                },
                text: t.to_string(),
            }).collect()
        })),
    }
}

/// A span of highlighted text: its foreground color and font, or no style at all.
#[derive(Debug, Clone, Copy, PartialEq, Eq, Structural)]
pub struct TextStyle {
    pub fg_r: u8,
    pub fg_g: u8,
    pub fg_b: u8,
    pub bold: bool,
    pub italic: bool,
    pub underline: bool,
}

pub struct StyledText {
    pub text: String,
    pub style: Option<TextStyle>,
}

pub struct StyledTextView {
    pub text: Seq<char>,
    pub style: Option<TextStyle>,
}

impl View for StyledText {
    type V = StyledTextView;

    open spec fn view(&self) -> StyledTextView {
        StyledTextView { text: self.text@, style: self.style }
    }
}

/// The style for the terminal: the foreground color, bold for bit 1, underline for
/// bit 2 and italic for bit 4 of syntect's font style.
pub open spec fn text_style(s: SyntaxStyle) -> TextStyle {
    TextStyle {
        fg_r: s.r,
        fg_g: s.g,
        fg_b: s.b,
        bold: s.font_bits & 1 != 0,
        italic: s.font_bits & 4 != 0,
        underline: s.font_bits & 2 != 0,
    }
}

/// `t` without its trailing newlines.
pub open spec fn trim_newlines(t: Seq<char>) -> Seq<char>
    decreases t.len(),
{
    if t.len() > 0 && t.last() == '\n' {
        trim_newlines(t.drop_last())
    } else {
        t
    }
}

/// The spans for the runs: each run's text without trailing newlines, in its
/// style, leaving out the runs that are then empty.
pub open spec fn spans_of(runs: Seq<(SyntaxStyle, Seq<char>)>) -> Seq<StyledTextView>
    decreases runs.len(),
{
    if runs.len() == 0 {
        seq![]
    } else {
        let t = trim_newlines(runs.last().1);
        spans_of(runs.drop_last()) + if t.len() == 0 {
            seq![]
        } else {
            seq![StyledTextView { text: t, style: Some(text_style(runs.last().0)) }]
        }
    }
}

pub open spec fn views(v: Seq<StyledText>) -> Seq<StyledTextView> {
    v.map_values(|s: StyledText| s@)
}

fn trim_newlines_exec(s: &str) -> (r: String)
    ensures
        r@ == trim_newlines(s@),
{
    let v = chars_of(s);
    let mut n = v.len();
    proof {
        assert(s@.take(n as int) =~= s@);
    }
    while n > 0 && v[n - 1] == '\n'
        invariant
            v@ == s@,
            n <= v@.len(),
            trim_newlines(s@) == trim_newlines(s@.take(n as int)),
        decreases n,
    {
        proof {
            assert(s@.take(n as int).drop_last() =~= s@.take(n - 1));
        }
        n = n - 1;
    }
    let mut out: Vec<char> = Vec::new();
    let mut i: usize = 0;
    while i < n
        invariant
            v@ == s@,
            i <= n <= v@.len(),
            out@ == s@.take(i as int),
        decreases n - i,
    {
        out.push(v[i]);
        proof {
            assert(out@ =~= s@.take(i + 1));
        }
        i = i + 1;
    }
    string_from_chars(&out)
}

/// The spans for the runs that the highlighter returned (see `spans_of`).
pub fn spans_from_regions(regions: &Vec<Region>) -> (r: Vec<StyledText>)
    ensures
        views(r@) == spans_of(region_pairs(regions@)),
{
    let ghost runs = region_pairs(regions@);
    let mut out: Vec<StyledText> = Vec::new();
    let mut i: usize = 0;
    while i < regions.len()
        invariant
            i <= regions@.len(),
            runs == region_pairs(regions@),
            views(out@) == spans_of(runs.take(i as int)),
        decreases regions@.len() - i,
    {
        proof {
            assert(runs.take(i + 1).drop_last() =~= runs.take(i as int));
            assert(runs.take(i + 1).last() == region_pair(regions@[i as int]));
        }
        let t = trim_newlines_exec(regions[i].text.as_str());
        if t.as_str().unicode_len() > 0 {
            let st = regions[i].style;
            let style = TextStyle {
                fg_r: st.r,
                fg_g: st.g,
                fg_b: st.b,
                bold: st.font_bits & 1 != 0,
                italic: st.font_bits & 4 != 0,
                underline: st.font_bits & 2 != 0,
            };
            let item = StyledText { text: t, style: Some(style) };
            proof {
                assert(views(out@.push(item)) =~= views(out@).push(item@));
            }
            out.push(item);
        }
        proof {
            assert(views(out@) =~= spans_of(runs.take(i + 1)));
        }
        i = i + 1;
    }
    proof {
        assert(runs.take(i as int) =~= runs);
    }
    out
}

/// The part of `path` after its last `.`, or the whole path when it has none
/// (what `path.rsplit('.').next()` gives).
pub open spec fn extension_of(path: Seq<char>) -> Seq<char>
    decreases path.len(),
{
    if path.len() == 0 {
        path
    } else if path.last() == '.' {
        seq![]
    } else {
        extension_of(path.drop_last()).push(path.last())
    }
}

/// The extension of `path` (see `extension_of`).
pub fn file_extension(path: &str) -> (r: String)
    ensures
        r@ == extension_of(path@),
{
    let v = chars_of(path);
    let mut i = v.len();
    proof {
        assert(path@.take(i as int) =~= path@);
        assert(path@.subrange(i as int, path@.len() as int) =~= seq![]);
        assert(path@ + seq![] =~= path@);
    }
    while i > 0 && v[i - 1] != '.'
        invariant
            v@ == path@,
            i <= v@.len(),
            extension_of(path@) == extension_of(path@.take(i as int)) + path@.subrange(i as int, path@.len() as int),
        decreases i,
    {
        proof {
            let t = path@.take(i as int);
            assert(t.drop_last() =~= path@.take(i - 1));
            assert(extension_of(t.drop_last()).push(t.last()) + path@.subrange(i as int, path@.len() as int)
                =~= extension_of(t.drop_last()) + path@.subrange(i - 1, path@.len() as int));
        }
        i = i - 1;
    }
    proof {
        let t = path@.take(i as int);
        assert(extension_of(t) =~= seq![]);
    }
    let mut ext: Vec<char> = Vec::new();
    let mut j = i;
    while j < v.len()
        invariant
            v@ == path@,
            i <= j <= v@.len(),
            ext@ == path@.subrange(i as int, j as int),
        decreases v@.len() - j,
    {
        ext.push(v[j]);
        proof {
            assert(ext@ =~= path@.subrange(i as int, j + 1));
        }
        j = j + 1;
    }
    proof {
        assert(ext@ =~= extension_of(path@));
    }
    string_from_chars(&ext)
}

/// Syntax highlighting of single lines, by file extension.
pub struct Highlighter {
    syntax_set: SyntaxSet,
    theme: Theme,
}

/// The unstyled span of the whole content, which highlighting falls back to.
pub open spec fn raw_span(content: Seq<char>) -> Seq<StyledTextView> {
    seq![StyledTextView { text: content, style: None }]
}

impl Highlighter {
    /// Loads the bundled syntaxes and the `base16-eighties.dark` theme.
    pub fn new() -> Self {
        let syntax_set = load_syntax_set();
        let theme = load_default_theme("base16-eighties.dark").unwrap();
        Highlighter { syntax_set, theme }
    }

    /// Highlights one line of code of the file at `file_path`, by its extension: the spans
    /// of syntect's runs over the line and a newline (see `spans_of`), or the whole line
    /// unstyled where the extension is unknown or highlighting fails.
    pub fn highlight_line(&self, content: &str, file_path: &str) -> (r: Vec<StyledText>)
        ensures
            views(r@) == highlight_spec(extension_of(file_path@), content@),
            has_no_newline(content@) ==> span_text(views(r@)) == content@,
            views(r@) == raw_span(content@) || forall|i: int| 0 <= i < r@.len() ==> (#[trigger] r@[i]).text@.len() > 0,
    {
        let ext = file_extension(file_path);
        let mut line = String::new();
        push_str(&mut line, content);
        push_char(&mut line, '\n');
        match highlight_by_extension(self, ext.as_str(), line.as_str()) {
            Some(Ok(regions)) => {
                let r = spans_from_regions(&regions);
                proof {
                    lemma_spans_nonempty(region_pairs(regions@));
                    if has_no_newline(content@) {
                        lemma_spans_keep_text(region_pairs(regions@), content@);
                    }
                    assert forall|i: int| 0 <= i < r@.len() implies (#[trigger] r@[i]).text@.len() > 0 by {
                        assert(views(r@)[i] == r@[i]@);
                    }
                }
                r
            },
            Some(Err(_)) => {
                let r = raw_spans(content);
                proof {
                    lemma_raw_span_text(content@);
                }
                r
            },
            None => {
                let r = raw_spans(content);
                proof {
                    lemma_raw_span_text(content@);
                }
                r
            },
        }
    }
}

/// The spans for `content` of a file whose extension is `ext`: syntect's runs over the line
/// and a newline, as spans; the whole line unstyled where no syntax has the extension or
/// highlighting fails.
pub open spec fn highlight_spec(ext: Seq<char>, content: Seq<char>) -> Seq<StyledTextView> {
    if known_extension(ext) {
        match highlighted(ext, content.push('\n')) {
            Some(runs) => spans_of(runs),
            None => raw_span(content),
        }
    } else {
        raw_span(content)
    }
}

fn raw_spans(content: &str) -> (r: Vec<StyledText>)
    ensures
        views(r@) == raw_span(content@),
{
    let mut out: Vec<StyledText> = Vec::new();
    out.push(StyledText { text: string_from_chars(&chars_of(content)), style: None });
    proof {
        assert(views(out@) =~= raw_span(content@));
    }
    out
}


/// Every span made from runs has some text.
proof fn lemma_spans_nonempty(runs: Seq<(SyntaxStyle, Seq<char>)>)
    ensures
        forall|i: int| 0 <= i < spans_of(runs).len() ==> (#[trigger] spans_of(runs)[i]).text.len() > 0,
    decreases runs.len(),
{
    if runs.len() > 0 {
        lemma_spans_nonempty(runs.drop_last());
        let p = spans_of(runs.drop_last());
        let t = trim_newlines(runs.last().1);
        if t.len() > 0 {
            let item = StyledTextView { text: t, style: Some(text_style(runs.last().0)) };
            assert(spans_of(runs) == p.push(item));
            assert forall|i: int| 0 <= i < spans_of(runs).len() implies (#[trigger] spans_of(runs)[i]).text.len() > 0 by {
                if i < p.len() {
                    assert(spans_of(runs)[i] == p[i]);
                }
            }
        } else {
            assert(spans_of(runs) =~= p);
        }
    }
}

proof fn lemma_raw_span_text(content: Seq<char>)
    ensures
        span_text(raw_span(content)) == content,
{
    let v = raw_span(content);
    assert(v.drop_last() =~= Seq::<StyledTextView>::empty());
    assert(span_text(v.drop_last()) == Seq::<char>::empty());
    assert(v.last().text == content);
    assert(Seq::<char>::empty() + content =~= content);
    assert(span_text(v) == span_text(v.drop_last()) + v.last().text);
}

/// The texts of the spans, one after another.
pub open spec fn span_text(v: Seq<StyledTextView>) -> Seq<char>
    decreases v.len(),
{
    if v.len() == 0 {
        seq![]
    } else {
        span_text(v.drop_last()) + v.last().text
    }
}

pub open spec fn has_no_newline(s: Seq<char>) -> bool {
    forall|i: int| 0 <= i < s.len() ==> s[i] != '\n'
}

proof fn lemma_trim_no_newline(t: Seq<char>)
    requires
        has_no_newline(t),
    ensures
        trim_newlines(t) == t,
{
    if t.len() > 0 {
        assert(t[t.len() - 1] != '\n');
    }
}

proof fn lemma_spans_no_newline(regions: Seq<(SyntaxStyle, Seq<char>)>)
    requires
        has_no_newline(pairs_text(regions)),
    ensures
        span_text(spans_of(regions)) == pairs_text(regions),
    decreases regions.len(),
{
    if regions.len() > 0 {
        let p = regions.drop_last();
        let t = regions.last().1;
        assert forall|i: int| 0 <= i < pairs_text(p).len() implies pairs_text(p)[i] != '\n' by {
            assert(pairs_text(regions)[i] == pairs_text(p)[i]);
        }
        assert forall|i: int| 0 <= i < t.len() implies t[i] != '\n' by {
            assert(pairs_text(regions)[pairs_text(p).len() + i] == t[i]);
        }
        lemma_spans_no_newline(p);
        lemma_trim_no_newline(t);
        let sp = spans_of(p);
        if t.len() == 0 {
            assert(spans_of(regions) == sp);
            assert(pairs_text(regions) =~= pairs_text(p));
        } else {
            let item = StyledTextView { text: t, style: Some(text_style(regions.last().0)) };
            assert(spans_of(regions) == sp.push(item));
            assert(sp.push(item).drop_last() =~= sp);
        }
    }
}

/// Highlighting keeps the text: when syntect's runs make up `content` and a
/// newline, and `content` has no newline, the spans make up `content` again.
pub proof fn lemma_spans_keep_text(regions: Seq<(SyntaxStyle, Seq<char>)>, content: Seq<char>)
    requires
        has_no_newline(content),
        pairs_text(regions) == content.push('\n'),
    ensures
        span_text(spans_of(regions)) == content,
    decreases regions.len(),
{
    if regions.len() == 0 {
        assert(pairs_text(regions).len() == 0);
    } else {
        let p = regions.drop_last();
        let t = regions.last().1;
        let sp = spans_of(p);
        if t.len() == 0 {
            assert(pairs_text(regions) =~= pairs_text(p));
            lemma_spans_keep_text(p, content);
            assert(spans_of(regions) == sp);
        } else {
            let whole = content.push('\n');
            let pt = pairs_text(p);
            assert(whole =~= pt + t);
            let t0 = t.drop_last();
            assert(t.last() == whole.last());
            assert(whole.drop_last() =~= content);
            assert((pt + t).drop_last() =~= pt + t0);
            assert(pt + t0 =~= content);
            assert forall|i: int| 0 <= i < pt.len() implies pt[i] != '\n' by {
                assert(content[i] == pt[i]);
            }
            assert forall|i: int| 0 <= i < t0.len() implies t0[i] != '\n' by {
                assert(content[pt.len() + i] == t0[i]);
            }
            lemma_spans_no_newline(p);
            lemma_trim_no_newline(t0);
            assert(trim_newlines(t) == trim_newlines(t0));
            if t0.len() == 0 {
                assert(spans_of(regions) == sp);
                assert(pt =~= content);
            } else {
                let item = StyledTextView { text: t0, style: Some(text_style(regions.last().0)) };
                assert(spans_of(regions) == sp.push(item));
                assert(sp.push(item).drop_last() =~= sp);
            }
        }
    }
}

} // verus!
