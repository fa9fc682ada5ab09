use vstd::prelude::*;

use crate::diff_model::{DiffFile, DiffLine, FileView, Hunk, HunkView, LineType, LineView};
use crate::text::{chars_of, find_from, first_from, split_lines, string_from_chars, text_lines};

verus! {

// ---------------------------------------------------------------------------
// The format, line by line.
// ---------------------------------------------------------------------------

/// Whether `l` begins with `p`.
pub open spec fn has_prefix(l: Seq<char>, p: Seq<char>) -> bool {
    p.len() <= l.len() && l.subrange(0, p.len() as int) == p
}

/// `l` after its first `n` characters.
pub open spec fn rest(l: Seq<char>, n: nat) -> Seq<char> {
    if n <= l.len() {
        l.subrange(n as int, l.len() as int)
    } else {
        seq![]
    }
}

/// `l` up to its first tab: a path without the timestamp that `diff -u` writes after it.
pub open spec fn before_tab(l: Seq<char>) -> Seq<char> {
    match first_from(l, '\t', 0) {
        Some(i) => l.subrange(0, i),
        None => l,
    }
}

/// `p` without the prefix `x`, when it has it.
pub open spec fn strip(p: Seq<char>, x: Seq<char>) -> Seq<char> {
    if has_prefix(p, x) {
        rest(p, x.len())
    } else {
        p
    }
}

/// The last index at or below `i` where ` b/` begins in `r`.
pub open spec fn last_b_slash(r: Seq<char>, i: int) -> Option<int>
    decreases i + 1,
{
    if i < 0 {
        None
    } else if i + 3 <= r.len() && r[i] == ' ' && r[i + 1] == 'b' && r[i + 2] == '/' {
        Some(i)
    } else {
        last_b_slash(r, i - 1)
    }
}

/// The new path of a `diff --git a/X b/Y` line's remainder: what follows its last ` b/`,
/// or the whole remainder when there is none.
pub open spec fn git_path(r: Seq<char>) -> Seq<char> {
    match last_b_slash(r, r.len() - 3) {
        Some(i) => r.subrange(i + 3, r.len() as int),
        None => r,
    }
}

/// The value of the decimal digits `s[i..j]`.
pub open spec fn digits_value(s: Seq<char>, i: int, j: int) -> nat
    decreases j - i,
{
    if j <= i {
        0
    } else {
        digits_value(s, i, j - 1) * 10 + ((s[j - 1] as u32) - ('0' as u32)) as nat
    }
}

pub open spec fn is_digit(c: char) -> bool {
    '0' <= c && c <= '9'
}

/// The first index from `i` on that does not hold a digit.
pub open spec fn digits_end(s: Seq<char>, i: int) -> int
    decreases s.len() - i,
{
    if i < 0 || i >= s.len() || !is_digit(s[i]) {
        i
    } else {
        digits_end(s, i + 1)
    }
}

/// The number written at `i`, and the index after it: one or more digits whose value fits in a `u32`.
pub open spec fn number_at(s: Seq<char>, i: int) -> Option<(u32, int)> {
    let j = digits_end(s, i);
    if 0 <= i && j > i && digits_value(s, i, j) <= u32::MAX {
        Some((digits_value(s, i, j) as u32, j))
    } else {
        None
    }
}

/// A range of a hunk header at `i`: a start and an optional `,count` (1 when absent).
pub open spec fn range_at(s: Seq<char>, i: int) -> Option<(u32, u32, int)> {
    match number_at(s, i) {
        None => None,
        Some((start, j)) => if j < s.len() && s[j] == ',' {
            match number_at(s, j + 1) {
                None => None,
                Some((count, k)) => Some((start, count, k)),
            }
        } else {
            Some((start, 1, j))
        },
    }
}

/// The numbers of a hunk header `@@ -a,b +c,d @@...`: old start, old count, new start, new count.
pub open spec fn hunk_numbers(l: Seq<char>) -> Option<(u32, u32, u32, u32)> {
    if !has_prefix(l, "@@ -"@) {
        None
    } else {
        match range_at(l, 4) {
            None => None,
            Some((a, b, j)) => if has_prefix(rest(l, j as nat), " +"@) {
                match range_at(l, j + 2) {
                    None => None,
                    Some((c, d, k)) => if has_prefix(rest(l, k as nat), " @@"@) {
                        Some((a, b, c, d))
                    } else {
                        None
                    },
                }
            } else {
                None
            },
        }
    }
}

// ---------------------------------------------------------------------------
// The parse as a scan over the lines.
// ---------------------------------------------------------------------------

/// What the parse knows after some lines: the finished files, the file and the hunk being
/// read, the line numbers of the next old and new lines, how many old and new lines the
/// hunk still has, and the path of the last `---` line.
#[verifier::ext_equal]
pub struct ParseState {
    pub files: Seq<FileView>,
    pub file: Option<FileView>,
    pub hunk: Option<HunkView>,
    pub old_no: u32,
    pub new_no: u32,
    pub old_left: u32,
    pub new_left: u32,
    pub minus_path: Option<Seq<char>>,
}

pub open spec fn parse_start() -> ParseState {
    ParseState {
        files: seq![],
        file: None,
        hunk: None,
        old_no: 0,
        new_no: 0,
        old_left: 0,
        new_left: 0,
        minus_path: None,
    }
}

pub open spec fn empty_file(path: Seq<char>) -> FileView {
    FileView { path, old_path: None, hunks: seq![], is_new: false, is_deleted: false, is_binary: false }
}

pub open spec fn inc(n: u32) -> u32 {
    if n < u32::MAX { (n + 1) as u32 } else { n }
}

pub open spec fn dec(n: u32) -> u32 {
    if n > 0 { (n - 1) as u32 } else { 0 }
}

/// The hunk being read, moved into its file.
pub open spec fn close_hunk(st: ParseState) -> ParseState {
    match st.hunk {
        None => st,
        Some(h) => {
            let f = match st.file {
                Some(f) => f,
                None => empty_file(seq![]),
            };
            ParseState { file: Some(FileView { hunks: f.hunks.push(h), ..f }), hunk: None, ..st }
        },
    }
}

/// The file being read, finished.
pub open spec fn close_file(st: ParseState) -> ParseState {
    let t = close_hunk(st);
    match t.file {
        None => ParseState { minus_path: None, ..t },
        Some(f) => ParseState { files: t.files.push(f), file: None, minus_path: None, ..t },
    }
}

pub open spec fn start_file(st: ParseState, path: Seq<char>) -> ParseState {
    ParseState { file: Some(empty_file(path)), ..close_file(st) }
}

/// A file to write to: the one being read, or a new one with no path.
pub open spec fn ensure_file(st: ParseState) -> ParseState {
    if st.file is Some { st } else { start_file(st, seq![]) }
}

/// The state with the file being read changed by `f`.
pub open spec fn set_new(st: ParseState) -> ParseState {
    match st.file {
        Some(f) => ParseState { file: Some(FileView { is_new: true, ..f }), ..st },
        None => st,
    }
}

pub open spec fn set_deleted(st: ParseState) -> ParseState {
    match st.file {
        Some(f) => ParseState { file: Some(FileView { is_deleted: true, ..f }), ..st },
        None => st,
    }
}

pub open spec fn set_binary(st: ParseState) -> ParseState {
    match st.file {
        Some(f) => ParseState { file: Some(FileView { is_binary: true, ..f }), ..st },
        None => st,
    }
}

pub open spec fn set_path(st: ParseState, p: Seq<char>) -> ParseState {
    match st.file {
        Some(f) => ParseState { file: Some(FileView { path: p, ..f }), ..st },
        None => st,
    }
}

pub open spec fn set_old_path(st: ParseState, p: Seq<char>) -> ParseState {
    match st.file {
        Some(f) => ParseState { file: Some(FileView { old_path: Some(p), ..f }), ..st },
        None => st,
    }
}

/// Whether a line is read as a line of the hunk being read: the hunk still has old or
/// new lines, and the line is empty or begins with ` `, `-`, `+` or `\`.
pub open spec fn in_hunk(st: ParseState, l: Seq<char>) -> bool {
    st.hunk is Some && (st.old_left > 0 || st.new_left > 0)
        && (l.len() == 0 || l[0] == ' ' || l[0] == '-' || l[0] == '+' || l[0] == '\\')
}

/// The state after a line of the hunk: a context line (or an empty one) has both line
/// numbers, a deletion the old one, an addition the new one; `\` lines add nothing.
pub open spec fn hunk_line(st: ParseState, l: Seq<char>) -> ParseState {
    let h = st.hunk->0;
    if l.len() > 0 && l[0] == '\\' {
        st
    } else if l.len() > 0 && l[0] == '-' {
        let line = LineView { kind: LineType::Deletion, content: rest(l, 1), old_lineno: Some(st.old_no), new_lineno: None };
        ParseState {
            hunk: Some(HunkView { lines: h.lines.push(line), ..h }),
            old_no: inc(st.old_no),
            old_left: dec(st.old_left),
            ..st
        }
    } else if l.len() > 0 && l[0] == '+' {
        let line = LineView { kind: LineType::Addition, content: rest(l, 1), old_lineno: None, new_lineno: Some(st.new_no) };
        ParseState {
            hunk: Some(HunkView { lines: h.lines.push(line), ..h }),
            new_no: inc(st.new_no),
            new_left: dec(st.new_left),
            ..st
        }
    } else {
        let line = LineView {
            kind: LineType::Context,
            content: rest(l, 1),
            old_lineno: Some(st.old_no),
            new_lineno: Some(st.new_no),
        };
        ParseState {
            hunk: Some(HunkView { lines: h.lines.push(line), ..h }),
            old_no: inc(st.old_no),
            new_no: inc(st.new_no),
            old_left: dec(st.old_left),
            new_left: dec(st.new_left),
            ..st
        }
    }
}

/// The state after a `---` line: a new file unless one is open with no hunks yet, then
/// the old path (or a new file, for `/dev/null`).
pub open spec fn minus_line(st: ParseState, l: Seq<char>) -> ParseState {
    let t = if st.file is Some && st.hunk is None && st.file->0.hunks.len() == 0 {
        st
    } else {
        start_file(st, seq![])
    };
    let p = before_tab(rest(l, 4));
    if p == "/dev/null"@ {
        ParseState { minus_path: None, ..set_new(t) }
    } else {
        ParseState { minus_path: Some(strip(p, "a/"@)), ..t }
    }
}

/// The state after a `+++` line: the new path, and the old one when it differs (or a
/// deleted file, for `/dev/null`, which keeps the old path).
pub open spec fn plus_line(st: ParseState, l: Seq<char>) -> ParseState {
    let t = ensure_file(st);
    let p = before_tab(rest(l, 4));
    if p == "/dev/null"@ {
        let u = set_deleted(t);
        match t.minus_path {
            Some(m) => set_path(u, m),
            None => u,
        }
    } else {
        let np = strip(p, "b/"@);
        let u = set_path(t, np);
        match t.minus_path {
            Some(m) => if m != np { set_old_path(u, m) } else { u },
            None => u,
        }
    }
}

/// The state after a hunk header: a new hunk in the file being read, with its starting
/// line numbers and line counts.
pub open spec fn header_line(st: ParseState, l: Seq<char>, n: (u32, u32, u32, u32)) -> ParseState {
    let t = ensure_file(close_hunk(st));
    ParseState {
        hunk: Some(HunkView { old_start: n.0, new_start: n.2, header: l, lines: seq![] }),
        old_no: n.0,
        new_no: n.2,
        old_left: n.1,
        new_left: n.3,
        ..t
    }
}

/// The state after one line of a unified diff.
pub open spec fn parse_step(st: ParseState, l: Seq<char>) -> ParseState {
    if in_hunk(st, l) {
        hunk_line(st, l)
    } else if l.len() > 0 && l[0] == '\\' {
        st
    } else if has_prefix(l, "diff --git "@) {
        start_file(st, git_path(rest(l, 11)))
    } else if has_prefix(l, "--- "@) {
        minus_line(st, l)
    } else if has_prefix(l, "+++ "@) {
        plus_line(st, l)
    } else if hunk_numbers(l) is Some {
        header_line(st, l, hunk_numbers(l)->0)
    } else if has_prefix(l, "new file mode"@) {
        set_new(st)
    } else if has_prefix(l, "deleted file mode"@) {
        set_deleted(st)
    } else if has_prefix(l, "rename from "@) {
        set_old_path(st, rest(l, 12))
    } else if has_prefix(l, "rename to "@) {
        set_path(st, rest(l, 10))
    } else if has_prefix(l, "Binary files "@) {
        set_binary(st)
    } else {
        st
    }
}

/// The state after the lines, one by one.
pub open spec fn parse_lines(lines: Seq<Seq<char>>) -> ParseState
    decreases lines.len(),
{
    if lines.len() == 0 {
        parse_start()
    } else {
        parse_step(parse_lines(lines.drop_last()), lines.last())
    }
}

/// The files of a unified diff (as `git diff` or `diff -u` write it).
pub open spec fn parse_diff(input: Seq<char>) -> Seq<FileView> {
    close_file(parse_lines(text_lines(input))).files
}


// ---------------------------------------------------------------------------
// The parser.
// ---------------------------------------------------------------------------

/// Whether `l` begins with `p`.
fn starts_with(l: &Vec<char>, p: &str) -> (b: bool)
    ensures
        b == has_prefix(l@, p@),
{
    let pv = chars_of(p);
    if pv.len() > l.len() {
        return false;
    }
    let mut i: usize = 0;
    while i < pv.len()
        invariant
            pv@ == p@,
            pv@.len() <= l@.len(),
            i <= pv@.len(),
            forall|j: int| 0 <= j < i ==> l@[j] == pv@[j],
        decreases pv@.len() - i,
    {
        if l[i] != pv[i] {
            proof {
                assert(l@.subrange(0, p@.len() as int)[i as int] != p@[i as int]);
            }
            return false;
        }
        i = i + 1;
    }
    proof {
        assert(l@.subrange(0, p@.len() as int) =~= p@);
    }
    true
}

/// Whether `l` holds exactly the characters of `p`.
fn same_chars(l: &Vec<char>, p: &str) -> (b: bool)
    ensures
        b == (l@ == p@),
{
    let pv = chars_of(p);
    if pv.len() != l.len() {
        return false;
    }
    let r = starts_with(l, p);
    proof {
        if r {
            assert(l@.subrange(0, l@.len() as int) =~= l@);
        } else {
            assert(l@.subrange(0, l@.len() as int) =~= l@);
        }
    }
    r
}

/// `l` after its first `n` characters.
fn rest_of(l: &Vec<char>, n: usize) -> (r: Vec<char>)
    ensures
        r@ == rest(l@, n as nat),
{
    let mut out: Vec<char> = Vec::new();
    if n > l.len() {
        return out;
    }
    let mut i = n;
    while i < l.len()
        invariant
            n <= i <= l@.len(),
            out@ == l@.subrange(n as int, i as int),
        decreases l@.len() - i,
    {
        out.push(l[i]);
        proof {
            assert(out@ =~= l@.subrange(n as int, i + 1));
        }
        i = i + 1;
    }
    out
}

fn prefix_of(l: &Vec<char>, n: usize) -> (r: Vec<char>)
    requires
        n <= l@.len(),
    ensures
        r@ == l@.subrange(0, n as int),
{
    let mut out: Vec<char> = Vec::new();
    let mut i: usize = 0;
    while i < n
        invariant
            i <= n <= l@.len(),
            out@ == l@.subrange(0, i as int),
        decreases n - i,
    {
        out.push(l[i]);
        proof {
            assert(out@ =~= l@.subrange(0, i + 1));
        }
        i = i + 1;
    }
    out
}

fn before_tab_of(l: &Vec<char>) -> (r: Vec<char>)
    ensures
        r@ == before_tab(l@),
{
    match find_from(l, '\t', 0) {
        Some(i) => prefix_of(l, i),
        None => {
            let r = rest_of(l, 0);
            proof {
                assert(l@.subrange(0, l@.len() as int) =~= l@);
            }
            r
        },
    }
}

fn strip_of(l: Vec<char>, x: &str) -> (r: Vec<char>)
    ensures
        r@ == strip(l@, x@),
{
    if starts_with(&l, x) {
        let n = x.unicode_len();
        rest_of(&l, n)
    } else {
        l
    }
}

fn git_path_of(r: &Vec<char>) -> (p: Vec<char>)
    ensures
        p@ == git_path(r@),
{
    if r.len() < 3 {
        proof {
            assert(last_b_slash(r@, r@.len() - 3) is None);
        }
        return rest_of(r, 0);
    }
    let mut i = r.len() - 3;
    loop
        invariant
            i + 3 <= r.len(),
            last_b_slash(r@, r@.len() - 3) == last_b_slash(r@, i as int),
        decreases i,
    {
        if r[i] == ' ' && r[i + 1] == 'b' && r[i + 2] == '/' {
            return rest_of(r, i + 3);
        }
        if i == 0 {
            assert(last_b_slash(r@, -1) is None);
            let p = rest_of(r, 0);
            proof {
                assert(r@.subrange(0, r@.len() as int) =~= r@);
            }
            return p;
        }
        i = i - 1;
    }
}

proof fn lemma_digits_value_grows(s: Seq<char>, i: int, j: int, k: int)
    requires
        i <= j <= k,
        forall|m: int| i <= m < k ==> is_digit(s[m]),
    ensures
        digits_value(s, i, j) <= digits_value(s, i, k),
    decreases k - j,
{
    if j < k {
        lemma_digits_value_grows(s, i, j, k - 1);
    }
}

proof fn lemma_digits_end(s: Seq<char>, i: int)
    requires
        0 <= i,
    ensures
        i <= digits_end(s, i) <= if i <= s.len() { s.len() as int } else { i },
        forall|m: int| i <= m < digits_end(s, i) ==> is_digit(s[m]),
        digits_end(s, i) < s.len() ==> !is_digit(s[digits_end(s, i)]),
    decreases s.len() - i,
{
    if i < s.len() && is_digit(s[i]) {
        lemma_digits_end(s, i + 1);
    }
}

fn number_at_of(s: &Vec<char>, i: usize) -> (r: Option<(u32, usize)>)
    ensures
        r == (match number_at(s@, i as int) {
            Some((v, j)) => Some((v, j as usize)),
            None => None,
        }),
        r matches Some((_, j)) ==> i < j <= s@.len(),
        number_at(s@, i as int) matches Some((_, j)) ==> i < j <= s.len(),
{
    proof {
        lemma_digits_end(s@, i as int);
    }
    let mut j = i;
    let mut v: u64 = 0;
    while j < s.len() && '0' <= s[j] && s[j] <= '9'
        invariant
            i <= j <= digits_end(s@, i as int),
            i <= s@.len() ==> j <= s@.len(),
            digits_end(s@, i as int) <= (if i <= s@.len() { s@.len() as int } else { i as int }),
            forall|m: int| i <= m < digits_end(s@, i as int) ==> is_digit(s@[m]),
            digits_end(s@, i as int) < s@.len() ==> !is_digit(s@[digits_end(s@, i as int)]),
            v == digits_value(s@, i as int, j as int),
            v <= u32::MAX,
        decreases s@.len() - j,
    {
        let d = (s[j] as u32 - '0' as u32) as u64;
        let nv = v * 10 + d;
        if nv > 0xffff_ffff {
            proof {
                lemma_digits_value_grows(s@, i as int, j + 1, digits_end(s@, i as int));
            }
            return None;
        }
        v = nv;
        j = j + 1;
    }
    if j == i {
        return None;
    }
    Some((v as u32, j))
}

fn range_at_of(s: &Vec<char>, i: usize) -> (r: Option<(u32, u32, usize)>)
    ensures
        r == (match range_at(s@, i as int) {
            Some((a, b, j)) => Some((a, b, j as usize)),
            None => None,
        }),
        r matches Some((_, _, j)) ==> j <= s@.len(),
        range_at(s@, i as int) matches Some((_, _, j)) ==> j <= s.len(),
{
    match number_at_of(s, i) {
        None => None,
        Some((start, j)) => {
            if j < s.len() && s[j] == ',' {
                match number_at_of(s, j + 1) {
                    None => None,
                    Some((count, k)) => Some((start, count, k)),
                }
            } else {
                Some((start, 1, j))
            }
        },
    }
}

fn hunk_numbers_of(l: &Vec<char>) -> (r: Option<(u32, u32, u32, u32)>)
    ensures
        r == hunk_numbers(l@),
{
    if !starts_with(l, "@@ -") {
        return None;
    }
    match range_at_of(l, 4) {
        None => None,
        Some((a, b, j)) => {
            let r1 = rest_of(l, j);
            if !starts_with(&r1, " +") {
                return None;
            }
            proof {
                reveal_strlit(" +");
            }
            assert(r1@.len() == l@.len() - j);
            assert(j + 2 <= l.len());
            match range_at_of(l, j + 2) {
                None => None,
                Some((c, d, k)) => {
                    let r2 = rest_of(l, k);
                    if starts_with(&r2, " @@") {
                        Some((a, b, c, d))
                    } else {
                        None
                    }
                },
            }
        },
    }
}

pub open spec fn opt_file(o: Option<DiffFile>) -> Option<FileView> {
    match o {
        Some(f) => Some(f@),
        None => None,
    }
}

pub open spec fn opt_hunk(o: Option<Hunk>) -> Option<HunkView> {
    match o {
        Some(h) => Some(h@),
        None => None,
    }
}

pub open spec fn opt_chars(o: Option<String>) -> Option<Seq<char>> {
    match o {
        Some(s) => Some(s@),
        None => None,
    }
}

pub open spec fn file_views(v: Seq<DiffFile>) -> Seq<FileView> {
    v.map_values(|f: DiffFile| f@)
}

/// The parse in progress.
struct Parser {
    files: Vec<DiffFile>,
    file: Option<DiffFile>,
    hunk: Option<Hunk>,
    old_no: u32,
    new_no: u32,
    old_left: u32,
    new_left: u32,
    minus_path: Option<String>,
}

impl View for Parser {
    type V = ParseState;

    closed spec fn view(&self) -> ParseState {
        ParseState {
            files: file_views(self.files@),
            file: opt_file(self.file),
            hunk: opt_hunk(self.hunk),
            old_no: self.old_no,
            new_no: self.new_no,
            old_left: self.old_left,
            new_left: self.new_left,
            minus_path: opt_chars(self.minus_path),
        }
    }
}

fn new_file(path: String) -> (f: DiffFile)
    ensures
        f@ == empty_file(path@),
{
    let f = DiffFile { path, old_path: None, hunks: Vec::new(), is_new: false, is_deleted: false, is_binary: false };
    proof {
        assert(f@ =~= empty_file(path@));
    }
    f
}

impl Parser {
    fn new() -> (p: Parser)
        ensures
            p@ == parse_start(),
    {
        let p = Parser {
            files: Vec::new(),
            file: None,
            hunk: None,
            old_no: 0,
            new_no: 0,
            old_left: 0,
            new_left: 0,
            minus_path: None,
        };
        proof {
            assert(p@ =~= parse_start());
        }
        p
    }

    fn close_hunk(&mut self)
        ensures
            final(self)@ == close_hunk(old(self)@),
    {
        match self.hunk.take() {
            None => {},
            Some(h) => {
                let mut f = match self.file.take() {
                    Some(f) => f,
                    None => new_file(String::new()),
                };
                let ghost fv = f@;
                f.hunks.push(h);
                proof {
                    assert(f@.hunks =~= fv.hunks.push(h@));
                    assert(f@ =~= FileView { hunks: fv.hunks.push(h@), ..fv });
                }
                self.file = Some(f);
                proof {
                    assert(self@ =~= close_hunk(old(self)@));
                }
            },
        }
    }

    fn close_file(&mut self)
        ensures
            final(self)@ == close_file(old(self)@),
    {
        self.close_hunk();
        match self.file.take() {
            None => {},
            Some(f) => {
                let ghost before = file_views(self.files@);
                self.files.push(f);
                proof {
                    assert(file_views(self.files@) =~= before.push(f@));
                }
            },
        }
        self.minus_path = None;
        proof {
            assert(self@ =~= close_file(old(self)@));
        }
    }

    fn start_file(&mut self, path: String)
        ensures
            final(self)@ == start_file(old(self)@, path@),
    {
        self.close_file();
        self.file = Some(new_file(path));
        proof {
            assert(self@ =~= start_file(old(self)@, path@));
        }
    }

    fn ensure_file(&mut self)
        ensures
            final(self)@ == ensure_file(old(self)@),
    {
        if self.file.is_none() {
            self.start_file(String::new());
        }
    }

    fn set_new(&mut self)
        ensures
            final(self)@ == set_new(old(self)@),
    {
        match self.file.take() {
            Some(mut f) => {
                f.is_new = true;
                self.file = Some(f);
                proof {
                    assert(self@ =~= set_new(old(self)@));
                }
            },
            None => {},
        }
    }

    fn set_deleted(&mut self)
        ensures
            final(self)@ == set_deleted(old(self)@),
    {
        match self.file.take() {
            Some(mut f) => {
                f.is_deleted = true;
                self.file = Some(f);
                proof {
                    assert(self@ =~= set_deleted(old(self)@));
                }
            },
            None => {},
        }
    }

    fn set_binary(&mut self)
        ensures
            final(self)@ == set_binary(old(self)@),
    {
        match self.file.take() {
            Some(mut f) => {
                f.is_binary = true;
                self.file = Some(f);
                proof {
                    assert(self@ =~= set_binary(old(self)@));
                }
            },
            None => {},
        }
    }

    fn set_path(&mut self, p: String)
        ensures
            final(self)@ == set_path(old(self)@, p@),
    {
        match self.file.take() {
            Some(mut f) => {
                f.path = p;
                self.file = Some(f);
                proof {
                    assert(self@ =~= set_path(old(self)@, p@));
                }
            },
            None => {},
        }
    }

    fn set_old_path(&mut self, p: String)
        ensures
            final(self)@ == set_old_path(old(self)@, p@),
    {
        match self.file.take() {
            Some(mut f) => {
                f.old_path = Some(p);
                self.file = Some(f);
                proof {
                    assert(self@ =~= set_old_path(old(self)@, p@));
                }
            },
            None => {},
        }
    }

    fn in_hunk(&self, l: &Vec<char>) -> (b: bool)
        ensures
            b == in_hunk(self@, l@),
    {
        self.hunk.is_some() && (self.old_left > 0 || self.new_left > 0)
            && (l.len() == 0 || l[0] == ' ' || l[0] == '-' || l[0] == '+' || l[0] == '\\')
    }

    fn push_line(&mut self, line: DiffLine)
        requires
            old(self).hunk is Some,
        ensures
            final(self)@ == (ParseState {
                hunk: Some(HunkView { lines: old(self)@.hunk->0.lines.push(line@), ..old(self)@.hunk->0 }),
                ..old(self)@
            }),
    {
        let mut h = self.hunk.take().unwrap();
        let ghost hv = h@;
        h.lines.push(line);
        proof {
            assert(h@.lines =~= hv.lines.push(line@));
            assert(h@ =~= HunkView { lines: hv.lines.push(line@), ..hv });
        }
        self.hunk = Some(h);
        proof {
            assert(self@ =~= ParseState {
                hunk: Some(HunkView { lines: old(self)@.hunk->0.lines.push(line@), ..old(self)@.hunk->0 }),
                ..old(self)@
            });
        }
    }

    fn hunk_line(&mut self, l: &Vec<char>)
        requires
            old(self).hunk is Some,
        ensures
            final(self)@ == hunk_line(old(self)@, l@),
    {
        if l.len() > 0 && l[0] == '\\' {
            return;
        }
        let content = string_from_chars(&rest_of(l, 1));
        let old_no = self.old_no;
        let new_no = self.new_no;
        if l.len() > 0 && l[0] == '-' {
            self.push_line(DiffLine { kind: LineType::Deletion, content, old_lineno: Some(old_no), new_lineno: None });
            self.old_no = if old_no < 0xffff_ffff { old_no + 1 } else { old_no };
            self.old_left = if self.old_left > 0 { self.old_left - 1 } else { 0 };
        } else if l.len() > 0 && l[0] == '+' {
            self.push_line(DiffLine { kind: LineType::Addition, content, old_lineno: None, new_lineno: Some(new_no) });
            self.new_no = if new_no < 0xffff_ffff { new_no + 1 } else { new_no };
            self.new_left = if self.new_left > 0 { self.new_left - 1 } else { 0 };
        } else {
            self.push_line(DiffLine { kind: LineType::Context, content, old_lineno: Some(old_no), new_lineno: Some(new_no) });
            self.old_no = if old_no < 0xffff_ffff { old_no + 1 } else { old_no };
            self.new_no = if new_no < 0xffff_ffff { new_no + 1 } else { new_no };
            self.old_left = if self.old_left > 0 { self.old_left - 1 } else { 0 };
            self.new_left = if self.new_left > 0 { self.new_left - 1 } else { 0 };
        }
        proof {
            assert(self@ =~= hunk_line(old(self)@, l@));
        }
    }

    fn minus_line(&mut self, l: &Vec<char>)
        ensures
            final(self)@ == minus_line(old(self)@, l@),
    {
        let keep = match &self.file {
            Some(f) => self.hunk.is_none() && f.hunks.len() == 0,
            None => false,
        };
        if !keep {
            self.start_file(String::new());
        }
        let p = before_tab_of(&rest_of(l, 4));
        if same_chars(&p, "/dev/null") {
            self.set_new();
            self.minus_path = None;
        } else {
            self.minus_path = Some(string_from_chars(&strip_of(p, "a/")));
        }
        proof {
            assert(self@ =~= minus_line(old(self)@, l@));
        }
    }

    fn plus_line(&mut self, l: &Vec<char>)
        ensures
            final(self)@ == plus_line(old(self)@, l@),
    {
        self.ensure_file();
        let ghost t = self@;
        let p = before_tab_of(&rest_of(l, 4));
        let minus = self.minus_path.clone();
        assert(opt_chars(minus) == t.minus_path);
        if same_chars(&p, "/dev/null") {
            self.set_deleted();
            match minus {
                Some(m) => self.set_path(m),
                None => {},
            }
        } else {
            let np = string_from_chars(&strip_of(p, "b/"));
            let ghost npv = np@;
            match minus {
                Some(m) => {
                    let differs = !(m == np);
                    self.set_path(np);
                    if differs {
                        self.set_old_path(m);
                    }
                },
                None => self.set_path(np),
            }
            proof {
                assert(npv == strip(before_tab(rest(l@, 4)), "b/"@));
            }
        }
    }

    fn header_line(&mut self, l: &Vec<char>, n: (u32, u32, u32, u32))
        ensures
            final(self)@ == header_line(old(self)@, l@, n),
    {
        self.close_hunk();
        self.ensure_file();
        let h = Hunk { old_start: n.0, new_start: n.2, header: string_from_chars(l), lines: Vec::new() };
        proof {
            assert(h@ =~= HunkView { old_start: n.0, new_start: n.2, header: l@, lines: seq![] });
        }
        self.hunk = Some(h);
        self.old_no = n.0;
        self.new_no = n.2;
        self.old_left = n.1;
        self.new_left = n.3;
        proof {
            assert(self@ =~= header_line(old(self)@, l@, n));
        }
    }

    fn step(&mut self, l: &Vec<char>)
        ensures
            final(self)@ == parse_step(old(self)@, l@),
    {
        if self.in_hunk(l) {
            self.hunk_line(l);
        } else if l.len() > 0 && l[0] == '\\' {
        } else if starts_with(l, "diff --git ") {
            let p = git_path_of(&rest_of(l, 11));
            self.start_file(string_from_chars(&p));
        } else if starts_with(l, "--- ") {
            self.minus_line(l);
        } else if starts_with(l, "+++ ") {
            self.plus_line(l);
        } else {
            match hunk_numbers_of(l) {
                Some(n) => self.header_line(l, n),
                None => {
                    if starts_with(l, "new file mode") {
                        self.set_new();
                    } else if starts_with(l, "deleted file mode") {
                        self.set_deleted();
                    } else if starts_with(l, "rename from ") {
                        self.set_old_path(string_from_chars(&rest_of(l, 12)));
                    } else if starts_with(l, "rename to ") {
                        self.set_path(string_from_chars(&rest_of(l, 10)));
                    } else if starts_with(l, "Binary files ") {
                        self.set_binary();
                    }
                },
            }
        }
    }
}

/// Reads the files of a unified diff (see `parse_diff`).
pub fn parse_unified_diff(input: &str) -> (r: Vec<DiffFile>)
    ensures
        file_views(r@) == parse_diff(input@),
{
    let lines = split_lines(input);
    let ghost lv = lines@.map_values(|v: Vec<char>| v@);
    let mut p = Parser::new();
    let mut i: usize = 0;
    while i < lines.len()
        invariant
            lv == lines@.map_values(|v: Vec<char>| v@),
            lv == text_lines(input@),
            i <= lines@.len(),
            p@ == parse_lines(lv.take(i as int)),
        decreases lines@.len() - i,
    {
        proof {
            assert(lv.take(i + 1).drop_last() =~= lv.take(i as int));
            assert(lv.take(i + 1).last() == lines@[i as int]@);
        }
        p.step(&lines[i]);
        i = i + 1;
    }
    proof {
        assert(lv.take(i as int) =~= lv);
    }
    p.close_file();
    p.files
}

// ---------------------------------------------------------------------------
// Every hunk header gives one hunk, in order.
// ---------------------------------------------------------------------------

/// The headers of `hunks`, in order.
pub open spec fn hunk_headers(hunks: Seq<HunkView>) -> Seq<Seq<char>> {
    hunks.map_values(|h: HunkView| h.header)
}

/// The headers of all hunks of all `files`, file by file, in order.
pub open spec fn all_hunk_headers(files: Seq<FileView>) -> Seq<Seq<char>>
    decreases files.len(),
{
    if files.len() == 0 {
        seq![]
    } else {
        all_hunk_headers(files.drop_last()) + hunk_headers(files.last().hunks)
    }
}

/// The lines of `lines` that are hunk headers (`@@ -a,b +c,d @@`), in order.
pub open spec fn header_lines(lines: Seq<Seq<char>>) -> Seq<Seq<char>>
    decreases lines.len(),
{
    if lines.len() == 0 {
        seq![]
    } else {
        header_lines(lines.drop_last()) + if hunk_numbers(lines.last()) is Some {
            seq![lines.last()]
        } else {
            seq![]
        }
    }
}

/// The headers of every hunk the parse holds: of the finished files, of the file being
/// read, and of the hunk being read.
pub open spec fn state_headers(st: ParseState) -> Seq<Seq<char>> {
    all_hunk_headers(st.files) + (match st.file {
        Some(f) => hunk_headers(f.hunks),
        None => seq![],
    }) + (match st.hunk {
        Some(h) => seq![h.header],
        None => seq![],
    })
}

proof fn lemma_close_hunk_headers(st: ParseState)
    ensures
        state_headers(close_hunk(st)) == state_headers(st),
        close_hunk(st).hunk is None,
        close_hunk(st).files == st.files,
{
    if let Some(h) = st.hunk {
        let f = match st.file {
            Some(f) => f,
            None => empty_file(seq![]),
        };
        assert(hunk_headers(f.hunks.push(h)) =~= hunk_headers(f.hunks).push(h.header));
        assert(hunk_headers(empty_file(seq![]).hunks) =~= Seq::<Seq<char>>::empty());
        assert(state_headers(close_hunk(st)) =~= state_headers(st));
    }
}

proof fn lemma_close_file_headers(st: ParseState)
    ensures
        state_headers(close_file(st)) == state_headers(st),
        close_file(st).hunk is None,
        close_file(st).file is None,
{
    lemma_close_hunk_headers(st);
    let t = close_hunk(st);
    if let Some(f) = t.file {
        let u = close_file(st);
        assert(u.files.drop_last() =~= t.files);
        assert(all_hunk_headers(u.files) == all_hunk_headers(t.files) + hunk_headers(f.hunks));
        assert(state_headers(u) =~= state_headers(t));
    } else {
        assert(state_headers(close_file(st)) =~= state_headers(t));
    }
}

proof fn lemma_start_file_headers(st: ParseState, p: Seq<char>)
    ensures
        state_headers(start_file(st, p)) == state_headers(st),
        start_file(st, p).hunk is None,
{
    lemma_close_file_headers(st);
    assert(hunk_headers(empty_file(p).hunks) =~= Seq::<Seq<char>>::empty());
    assert(state_headers(start_file(st, p)) =~= state_headers(close_file(st)));
}

proof fn lemma_ensure_file_headers(st: ParseState)
    ensures
        state_headers(ensure_file(st)) == state_headers(st),
        st.hunk is None ==> ensure_file(st).hunk is None,
{
    if st.file is None {
        lemma_start_file_headers(st, seq![]);
    }
}

/// A line that is a hunk header begins with `@`.
proof fn lemma_header_starts_with_at(l: Seq<char>)
    requires
        hunk_numbers(l) is Some,
    ensures
        l.len() > 0 && l[0] == '@',
{
    reveal_strlit("@@ -");
    assert(l.subrange(0, 4)[0] == l[0]);
}

proof fn lemma_prefix_first(l: Seq<char>, p: Seq<char>)
    requires
        has_prefix(l, p),
        p.len() > 0,
    ensures
        l[0] == p[0],
{
    assert(l.subrange(0, p.len() as int)[0] == l[0]);
}

/// One line adds its header to the parse's headers when it is a hunk header, and otherwise
/// keeps them: no hunk is lost or changes its header.
pub proof fn lemma_step_headers(st: ParseState, l: Seq<char>)
    ensures
        state_headers(parse_step(st, l)) == state_headers(st) + if hunk_numbers(l) is Some {
            seq![l]
        } else {
            seq![]
        },
{
    let none: Seq<Seq<char>> = seq![];
    if hunk_numbers(l) is Some {
        lemma_header_starts_with_at(l);
        reveal_strlit("diff --git ");
        reveal_strlit("--- ");
        reveal_strlit("+++ ");
        if has_prefix(l, "diff --git "@) {
            lemma_prefix_first(l, "diff --git "@);
        }
        if has_prefix(l, "--- "@) {
            lemma_prefix_first(l, "--- "@);
        }
        if has_prefix(l, "+++ "@) {
            lemma_prefix_first(l, "+++ "@);
        }
        assert(!in_hunk(st, l));
        lemma_close_hunk_headers(st);
        lemma_ensure_file_headers(close_hunk(st));
        let t = ensure_file(close_hunk(st));
        let n = hunk_numbers(l)->0;
        assert(parse_step(st, l) == header_line(st, l, n));
        assert(state_headers(header_line(st, l, n)) =~= state_headers(t) + seq![l]);
    } else {
        assert(state_headers(st) + none =~= state_headers(st));
        if in_hunk(st, l) {
            let u = hunk_line(st, l);
            assert(state_headers(u) =~= state_headers(st));
        } else if l.len() > 0 && l[0] == '\\' {
        } else if has_prefix(l, "diff --git "@) {
            lemma_start_file_headers(st, git_path(rest(l, 11)));
        } else if has_prefix(l, "--- "@) {
            let t = if st.file is Some && st.hunk is None && st.file->0.hunks.len() == 0 {
                st
            } else {
                start_file(st, seq![])
            };
            lemma_start_file_headers(st, seq![]);
            assert(state_headers(set_new(t)) =~= state_headers(t));
            let p = before_tab(rest(l, 4));
            assert(state_headers(ParseState { minus_path: None, ..set_new(t) }) =~= state_headers(t));
            assert(state_headers(ParseState { minus_path: Some(strip(p, "a/"@)), ..t }) =~= state_headers(t));
        } else if has_prefix(l, "+++ "@) {
            lemma_ensure_file_headers(st);
            let t = ensure_file(st);
            let p = before_tab(rest(l, 4));
            let np = strip(p, "b/"@);
            assert(state_headers(set_deleted(t)) =~= state_headers(t));
            assert(state_headers(set_path(t, np)) =~= state_headers(t));
            if let Some(m) = t.minus_path {
                assert(state_headers(set_path(set_deleted(t), m)) =~= state_headers(t));
                assert(state_headers(set_old_path(set_path(t, np), m)) =~= state_headers(t));
            }
        } else {
            assert(state_headers(set_new(st)) =~= state_headers(st));
            assert(state_headers(set_deleted(st)) =~= state_headers(st));
            assert(state_headers(set_binary(st)) =~= state_headers(st));
            assert(state_headers(set_old_path(st, rest(l, 12))) =~= state_headers(st));
            assert(state_headers(set_path(st, rest(l, 10))) =~= state_headers(st));
        }
    }
}

proof fn lemma_lines_headers(lines: Seq<Seq<char>>)
    ensures
        state_headers(parse_lines(lines)) == header_lines(lines),
    decreases lines.len(),
{
    if lines.len() == 0 {
        assert(state_headers(parse_start()) =~= Seq::<Seq<char>>::empty());
    } else {
        lemma_lines_headers(lines.drop_last());
        lemma_step_headers(parse_lines(lines.drop_last()), lines.last());
    }
}

/// The parse has one hunk per hunk header line of the input, in order: the hunks of all
/// files, file by file, carry exactly the input's `@@ ... @@` lines as their headers. No
/// hunk is dropped when a later header starts a new one.
pub proof fn lemma_hunk_per_header(input: Seq<char>)
    ensures
        all_hunk_headers(parse_diff(input)) == header_lines(text_lines(input)),
{
    let st = parse_lines(text_lines(input));
    lemma_lines_headers(text_lines(input));
    lemma_close_file_headers(st);
    let u = close_file(st);
    assert(state_headers(u) =~= all_hunk_headers(u.files));
}

/// The number of lines over all `hunks`.
pub open spec fn hunk_views_lines(hunks: Seq<HunkView>) -> nat
    decreases hunks.len(),
{
    if hunks.len() == 0 {
        0
    } else {
        hunk_views_lines(hunks.drop_last()) + hunks.last().lines.len()
    }
}

/// The number of lines over all hunks of all `files`.
pub open spec fn file_views_lines(files: Seq<FileView>) -> nat
    decreases files.len(),
{
    if files.len() == 0 {
        0
    } else {
        file_views_lines(files.drop_last()) + hunk_views_lines(files.last().hunks)
    }
}

/// The number of lines that the parse holds in hunks, finished or being read.
pub open spec fn state_lines(st: ParseState) -> nat {
    file_views_lines(st.files) + (match st.file {
        Some(f) => hunk_views_lines(f.hunks),
        None => 0,
    }) + (match st.hunk {
        Some(h) => h.lines.len(),
        None => 0,
    })
}

/// Whether `l` is a `\ No newline at end of file` marker.
pub open spec fn is_marker(l: Seq<char>) -> bool {
    l.len() > 0 && l[0] == '\\'
}

/// How many of `lines` are read as lines of a hunk (and are no `\` marker): those that come
/// while the hunk being read still has old or new lines.
pub open spec fn hunk_lines_read(lines: Seq<Seq<char>>) -> nat
    decreases lines.len(),
{
    if lines.len() == 0 {
        0
    } else {
        hunk_lines_read(lines.drop_last()) + if in_hunk(parse_lines(lines.drop_last()), lines.last())
            && !is_marker(lines.last()) {
            1nat
        } else {
            0nat
        }
    }
}

proof fn lemma_close_hunk_lines(st: ParseState)
    ensures
        state_lines(close_hunk(st)) == state_lines(st),
{
    if let Some(h) = st.hunk {
        let f = match st.file {
            Some(f) => f,
            None => empty_file(seq![]),
        };
        assert(f.hunks.push(h).drop_last() =~= f.hunks);
        assert(hunk_views_lines(empty_file(seq![]).hunks) == 0);
    }
}

proof fn lemma_close_file_lines(st: ParseState)
    ensures
        state_lines(close_file(st)) == state_lines(st),
{
    lemma_close_hunk_lines(st);
    let t = close_hunk(st);
    lemma_close_hunk_headers(st);
    if let Some(f) = t.file {
        assert(close_file(st).files.drop_last() =~= t.files);
    }
}

proof fn lemma_start_file_lines(st: ParseState, p: Seq<char>)
    ensures
        state_lines(start_file(st, p)) == state_lines(st),
{
    lemma_close_file_lines(st);
    lemma_close_file_headers(st);
    assert(hunk_views_lines(empty_file(p).hunks) == 0);
}

proof fn lemma_ensure_file_lines(st: ParseState)
    ensures
        state_lines(ensure_file(st)) == state_lines(st),
{
    if st.file is None {
        lemma_start_file_lines(st, seq![]);
    }
}

/// One line adds one line to the parse's hunks when it is read as a hunk line (and is no
/// `\` marker), and otherwise adds none and loses none.
pub proof fn lemma_step_lines(st: ParseState, l: Seq<char>)
    ensures
        state_lines(parse_step(st, l)) == state_lines(st) + if in_hunk(st, l) && !is_marker(l) {
            1nat
        } else {
            0nat
        },
{
    if in_hunk(st, l) {
    } else if is_marker(l) {
    } else if has_prefix(l, "diff --git "@) {
        lemma_start_file_lines(st, git_path(rest(l, 11)));
    } else if has_prefix(l, "--- "@) {
        lemma_start_file_lines(st, seq![]);
    } else if has_prefix(l, "+++ "@) {
        lemma_ensure_file_lines(st);
        let t = ensure_file(st);
        if let Some(m) = t.minus_path {
            assert(state_lines(set_path(set_deleted(t), m)) == state_lines(t));
        }
    } else if hunk_numbers(l) is Some {
        lemma_close_hunk_lines(st);
        lemma_close_hunk_headers(st);
        lemma_ensure_file_lines(close_hunk(st));
        lemma_ensure_file_headers(close_hunk(st));
    }
}

proof fn lemma_lines_read(lines: Seq<Seq<char>>)
    ensures
        state_lines(parse_lines(lines)) == hunk_lines_read(lines),
    decreases lines.len(),
{
    if lines.len() > 0 {
        lemma_lines_read(lines.drop_last());
        lemma_step_lines(parse_lines(lines.drop_last()), lines.last());
    }
}

/// Every line read as a line of a hunk ends up in the parse: the hunks of all files hold as
/// many lines as the input has hunk lines (leaving out `\` markers).
pub proof fn lemma_every_hunk_line_kept(input: Seq<char>)
    ensures
        file_views_lines(parse_diff(input)) == hunk_lines_read(text_lines(input)),
{
    let st = parse_lines(text_lines(input));
    lemma_lines_read(text_lines(input));
    lemma_close_file_lines(st);
    lemma_close_file_headers(st);
}

} // verus!
