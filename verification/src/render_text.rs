use vstd::prelude::*;
use vstd::utf8::{decode_utf8, encode_utf8, is_char_boundary, encode_utf8_decode_utf8, encode_utf8_valid_utf8};

use crate::app::{App, flat_line_at, spec_selection};
use crate::diff_model::{DiffFile, LineType};
use crate::mode::{Mode, spec_label};
use crate::nav::{count_at_most, partition_at_most};
use crate::text::{chars_of, decimal, decimal_string, push_char, push_decimal, push_str, string_from_chars};

verus! {

/// The ellipsis that marks a shortened name.
pub open spec fn ellipsis() -> char {
    '\u{2026}'
}

/// The part of a path after its last `/`, or the whole path when it has none.
pub open spec fn last_component(p: Seq<char>) -> Seq<char>
    decreases p.len(),
{
    if p.len() == 0 {
        p
    } else if p.last() == '/' {
        seq![]
    } else {
        last_component(p.drop_last()).push(p.last())
    }
}

/// The length of `s` in UTF-8 bytes, as `str::len` counts it.
pub open spec fn utf8_len(s: Seq<char>) -> nat {
    encode_utf8(s).len()
}

/// Whether shortening `path` to `max_width` bytes cuts the file name at a character
/// boundary (where it does not, `&name[..]` would panic).
pub open spec fn short_filename_defined(path: Seq<char>, max_width: usize) -> bool {
    utf8_len(path) <= max_width || {
        let nb = encode_utf8(last_component(path));
        &&& max_width >= 1
        &&& nb.len() >= max_width - 1 ==> is_char_boundary(nb, nb.len() - (max_width - 1))
    }
}

/// `path` shortened for a list `max_width` bytes wide: the whole path when it fits, else
/// an ellipsis and the last `max_width - 1` bytes of the file name when the name alone
/// does not fit, else an ellipsis, `/` and the file name.
pub open spec fn spec_short_filename(path: Seq<char>, max_width: usize) -> Seq<char> {
    if utf8_len(path) <= max_width {
        path
    } else {
        let name = last_component(path);
        let nb = encode_utf8(name);
        if nb.len() >= max_width - 1 {
            seq![ellipsis()] + decode_utf8(nb.subrange(nb.len() - (max_width - 1), nb.len() as int))
        } else {
            seq![ellipsis(), '/'] + name
        }
    }
}

proof fn lemma_encode_concat(a: Seq<char>, b: Seq<char>)
    ensures
        encode_utf8(a + b) == encode_utf8(a) + encode_utf8(b),
    decreases a.len(),
{
    if a.len() > 0 {
        assert((a + b).drop_first() =~= a.drop_first() + b);
        lemma_encode_concat(a.drop_first(), b);
        assert(encode_utf8(a + b) =~= encode_utf8(a) + encode_utf8(b));
    } else {
        assert(a + b =~= b);
        assert(encode_utf8(a) + encode_utf8(b) =~= encode_utf8(b));
    }
}

proof fn lemma_last_component_suffix(p: Seq<char>)
    ensures
        last_component(p).len() <= p.len(),
        p == p.take(p.len() - last_component(p).len()) + last_component(p),
    decreases p.len(),
{
    if p.len() > 0 {
        lemma_last_component_suffix(p.drop_last());
        if p.last() == '/' {
            assert(p =~= p.take(p.len() as int) + seq![]);
        } else {
            let q = p.drop_last();
            let l = last_component(q);
            let pre = q.take(q.len() - l.len());
            assert(p.take(p.len() - (l.len() + 1)) =~= pre);
            assert(q == pre + l);
            assert(p =~= q.push(p.last()));
            assert(q.push(p.last()) =~= pre + l.push(p.last()));
        }
    }
}

/// The file name is no longer in bytes than the path.
proof fn lemma_name_utf8_len(p: Seq<char>)
    ensures
        utf8_len(last_component(p)) <= utf8_len(p),
{
    lemma_last_component_suffix(p);
    let pre = p.take(p.len() - last_component(p).len());
    lemma_encode_concat(pre, last_component(p));
}

/// The file name: the characters after the last `/`.
fn file_name_of(path: &str) -> (r: String)
    ensures
        r@ == last_component(path@),
{
    let v = chars_of(path);
    let mut i = v.len();
    proof {
        assert(path@.take(i as int) =~= path@);
        assert(path@.subrange(i as int, path@.len() as int) =~= seq![]);
        assert(path@ + seq![] =~= path@);
    }
    while i > 0 && v[i - 1] != '/'
        invariant
            v@ == path@,
            i <= v@.len(),
            last_component(path@) == last_component(path@.take(i as int)) + path@.subrange(i as int, path@.len() as int),
        decreases i,
    {
        proof {
            let t = path@.take(i as int);
            assert(t.drop_last() =~= path@.take(i - 1));
            assert(path@.subrange(i - 1, path@.len() as int) =~= seq![t.last()] + path@.subrange(i as int, path@.len() as int));
            assert(last_component(t) == last_component(t.drop_last()).push(t.last()));
            assert(last_component(t.drop_last()).push(t.last()) + path@.subrange(i as int, path@.len() as int)
                =~= last_component(t.drop_last()) + path@.subrange(i - 1, path@.len() as int));
        }
        i = i - 1;
    }
    proof {
        let t = path@.take(i as int);
        if i > 0 {
            assert(t.last() == '/');
        }
        assert(last_component(t) =~= seq![]);
    }
    let mut name: Vec<char> = Vec::new();
    let mut j = i;
    while j < v.len()
        invariant
            v@ == path@,
            i <= j <= v@.len(),
            name@ == path@.subrange(i as int, j as int),
        decreases v@.len() - j,
    {
        name.push(v[j]);
        proof {
            assert(name@ =~= path@.subrange(i as int, j + 1));
        }
        j = j + 1;
    }
    proof {
        assert(name@ =~= last_component(path@));
    }
    string_from_chars(&name)
}

/// Whether `short_filename(path, max_width)` is defined (see `short_filename_defined`).
pub fn short_filename_ok(path: &str, max_width: usize) -> (b: bool)
    requires
        utf8_len(path@) <= usize::MAX,
    ensures
        b == short_filename_defined(path@, max_width),
{
    if path.len() <= max_width {
        return true;
    }
    if max_width == 0 {
        return false;
    }
    let name = file_name_of(path);
    proof {
        lemma_name_utf8_len(path@);
    }
    let n = name.as_str().len();
    if n >= max_width - 1 {
        proof {
            encode_utf8_valid_utf8(name@);
        }
        name.as_str().is_char_boundary(n - (max_width - 1))
    } else {
        true
    }
}

/// Shortens `path` for a list `max_width` bytes wide (see `spec_short_filename`).
pub fn short_filename(path: &str, max_width: usize) -> (r: String)
    requires
        utf8_len(path@) <= usize::MAX,
        short_filename_defined(path@, max_width),
    ensures
        r@ == spec_short_filename(path@, max_width),
{
    if path.len() <= max_width {
        return string_from_chars(&chars_of(path));
    }
    let name = file_name_of(path);
    proof {
        lemma_name_utf8_len(path@);
    }
    let n = name.as_str().len();
    let mut out = String::new();
    push_char(&mut out, '\u{2026}');
    if n >= max_width - 1 {
        proof {
            encode_utf8_valid_utf8(name@);
        }
        let (_head, tail) = name.as_str().split_at(n - (max_width - 1));
        proof {
            encode_utf8_decode_utf8(tail@);
        }
        push_str(&mut out, tail);
    } else {
        push_char(&mut out, '/');
        push_str(&mut out, name.as_str());
    }
    proof {
        assert(out@ =~= spec_short_filename(path@, max_width));
    }
    out
}


/// `s` right-aligned in a field `w` characters wide.
pub open spec fn pad_left(s: Seq<char>, w: nat) -> Seq<char> {
    if s.len() >= w {
        s
    } else {
        Seq::new((w - s.len()) as nat, |i: int| ' ') + s
    }
}

/// The line-number gutter: the number right-aligned in four columns and a space,
/// or five spaces.
pub open spec fn lineno_text(n: Option<u32>) -> Seq<char> {
    match n {
        Some(n) => pad_left(decimal(n as nat), 4).push(' '),
        None => seq![' ', ' ', ' ', ' ', ' '],
    }
}

/// Formats a line number for the gutter, as `format!("{:>4} ", n)` does.
pub fn format_lineno(lineno: Option<u32>) -> (r: String)
    ensures
        r@ == lineno_text(lineno),
{
    let mut out = String::new();
    match lineno {
        Some(n) => {
            let d = decimal_string(n as u64);
            let len = d.as_str().unicode_len();
            let mut k = len;
            while k < 4
                invariant
                    len == d@.len(),
                    len <= k <= 4 || (len > 4 && k == len),
                    out@ == Seq::new((k - len) as nat, |i: int| ' '),
                decreases 4 - k,
            {
                push_char(&mut out, ' ');
                proof {
                    assert(out@ =~= Seq::new((k + 1 - len) as nat, |i: int| ' '));
                }
                k = k + 1;
            }
            push_str(&mut out, d.as_str());
            push_char(&mut out, ' ');
            proof {
                assert(out@ =~= lineno_text(lineno));
            }
        },
        None => {
            let mut k: usize = 0;
            while k < 5
                invariant
                    k <= 5,
                    out@ == Seq::new(k as nat, |i: int| ' '),
                decreases 5 - k,
            {
                push_char(&mut out, ' ');
                proof {
                    assert(out@ =~= Seq::new((k + 1) as nat, |i: int| ' '));
                }
                k = k + 1;
            }
            proof {
                assert(out@ =~= lineno_text(lineno));
            }
        },
    }
    out
}

/// The arrow between an old and a new path in a file header.
pub open spec fn rename_arrow() -> Seq<char> {
    seq![' ', '\u{2192}', ' ']
}

/// The header of a file in the diff: the path, after the old path for a rename.
pub open spec fn file_header_text(file: DiffFile) -> Seq<char> {
    match file.old_path {
        Some(old) => seq![' '] + old@ + rename_arrow() + file.path@,
        None => seq![' '] + file.path@,
    }
}

/// The header of `file` in the diff panels.
pub fn file_header(file: &DiffFile) -> (r: String)
    ensures
        r@ == file_header_text(*file),
{
    let mut out = String::new();
    push_char(&mut out, ' ');
    match &file.old_path {
        Some(old) => {
            push_str(&mut out, old.as_str());
            push_char(&mut out, ' ');
            push_char(&mut out, '\u{2192}');
            push_char(&mut out, ' ');
        },
        None => {},
    }
    push_str(&mut out, file.path.as_str());
    proof {
        assert(out@ =~= file_header_text(*file));
    }
    out
}

/// The sums of the first and of the second counts.
pub open spec fn sum_counts(counts: Seq<(usize, usize)>) -> (nat, nat)
    decreases counts.len(),
{
    if counts.len() == 0 {
        (0, 0)
    } else {
        let s = sum_counts(counts.drop_last());
        ((s.0 + counts.last().0) as nat, (s.1 + counts.last().1) as nat)
    }
}

/// The summary above the file list: `N files `, `+adds` and `-dels` over all files.
pub struct FileListSummary {
    pub files: String,
    pub adds: String,
    pub dels: String,
}

pub open spec fn files_word() -> Seq<char> {
    seq![' ', 'f', 'i', 'l', 'e', 's', ' ']
}

impl App {
    /// The added and deleted line totals over all files.
    pub open spec fn spec_totals(&self) -> (nat, nat) {
        sum_counts(self.line_counts@)
    }

    /// The summary line of the file list.
    pub fn file_list_summary(&self) -> (r: FileListSummary)
        requires
            self.spec_totals().0 <= usize::MAX,
            self.spec_totals().1 <= usize::MAX,
        ensures
            r.files@ == decimal(self.files@.len()) + files_word(),
            r.adds@ == seq!['+'] + decimal(self.spec_totals().0),
            r.dels@ == seq!['-'] + decimal(self.spec_totals().1),
    {
        let mut adds: usize = 0;
        let mut dels: usize = 0;
        let mut i: usize = 0;
        while i < self.line_counts.len()
            invariant
                i <= self.line_counts@.len(),
                sum_counts(self.line_counts@).0 <= usize::MAX,
                sum_counts(self.line_counts@).1 <= usize::MAX,
                (adds as nat, dels as nat) == sum_counts(self.line_counts@.take(i as int)),
            decreases self.line_counts@.len() - i,
        {
            proof {
                assert(self.line_counts@.take(i + 1).drop_last() =~= self.line_counts@.take(i as int));
                lemma_sum_counts_prefix(self.line_counts@, i + 1);
            }
            adds = adds + self.line_counts[i].0;
            dels = dels + self.line_counts[i].1;
            i = i + 1;
        }
        proof {
            assert(self.line_counts@.take(i as int) =~= self.line_counts@);
        }
        let mut files = decimal_string(self.files.len() as u64);
        push_char(&mut files, ' ');
        push_char(&mut files, 'f');
        push_char(&mut files, 'i');
        push_char(&mut files, 'l');
        push_char(&mut files, 'e');
        push_char(&mut files, 's');
        push_char(&mut files, ' ');
        let mut a = String::new();
        push_char(&mut a, '+');
        push_decimal(&mut a, adds as u64);
        let mut d = String::new();
        push_char(&mut d, '-');
        push_decimal(&mut d, dels as u64);
        proof {
            assert(files@ =~= decimal(self.files@.len()) + files_word());
            assert(a@ =~= seq!['+'] + decimal(self.spec_totals().0));
            assert(d@ =~= seq!['-'] + decimal(self.spec_totals().1));
        }
        FileListSummary { files, adds: a, dels: d }
    }
}

proof fn lemma_sum_counts_prefix(c: Seq<(usize, usize)>, n: int)
    requires
        0 <= n <= c.len(),
    ensures
        sum_counts(c.take(n)).0 <= sum_counts(c).0,
        sum_counts(c.take(n)).1 <= sum_counts(c).1,
    decreases c.len(),
{
    if n < c.len() {
        assert(c.drop_last().take(n) =~= c.take(n));
        lemma_sum_counts_prefix(c.drop_last(), n);
    } else {
        assert(c.take(n) =~= c);
    }
}


/// ` +N` (or ` -N`) for a nonzero count, else nothing.
pub open spec fn count_label(sign: char, n: usize) -> Seq<char> {
    if n == 0 {
        seq![]
    } else {
        seq![' ', sign] + decimal(n as nat)
    }
}

fn push_count_label(out: &mut String, sign: char, n: usize)
    ensures
        final(out)@ == old(out)@ + count_label(sign, n),
{
    if n > 0 {
        push_char(out, ' ');
        push_char(out, sign);
        push_decimal(out, n as u64);
    }
    proof {
        assert(final(out)@ =~= old(out)@ + count_label(sign, n));
    }
}

/// The marker before a file in the list: an arrow for the active file.
pub open spec fn file_marker(active: bool) -> Seq<char> {
    if active {
        seq!['\u{25b6}', ' ']
    } else {
        seq![' ', ' ']
    }
}

/// One file in the file list.
pub struct FileListEntry {
    pub active: bool,
    pub marker: String,
    pub name: String,
    pub adds: String,
    pub dels: String,
}

/// `width - 8`, or 0: the room for a file name in a list `width` columns wide.
pub open spec fn name_room(width: usize) -> usize {
    if width >= 8 { (width - 8) as usize } else { 0 }
}

impl App {
    /// Whether every path can be shortened for a list `width` columns wide.
    pub open spec fn file_list_defined(&self, width: usize) -> bool {
        forall|i: int| 0 <= i < self.files@.len() ==> {
            &&& utf8_len((#[trigger] self.files@[i]).path@) <= usize::MAX
            &&& short_filename_defined(self.files@[i].path@, name_room(width))
        }
    }

    /// Whether `file_list_entries(width)` is defined: it checks `file_list_defined`.
    pub fn file_list_ok(&self, width: usize) -> (b: bool)
        requires
            forall|i: int| 0 <= i < self.files@.len() ==> utf8_len((#[trigger] self.files@[i]).path@) <= usize::MAX,
        ensures
            b == self.file_list_defined(width),
    {
        let room = if width >= 8 { width - 8 } else { 0 };
        let mut i: usize = 0;
        while i < self.files.len()
            invariant
                i <= self.files@.len(),
                room == name_room(width),
                forall|j: int| 0 <= j < self.files@.len() ==> utf8_len((#[trigger] self.files@[j]).path@) <= usize::MAX,
                forall|j: int| 0 <= j < i ==> short_filename_defined((#[trigger] self.files@[j]).path@, room),
            decreases self.files@.len() - i,
        {
            if !short_filename_ok(self.files[i].path.as_str(), room) {
                return false;
            }
            i = i + 1;
        }
        true
    }

    /// The entries of the file list in a list `width` columns wide: the active file (the
    /// cursor's) marked, each name shortened, and the nonzero added and deleted counts.
    pub fn file_list_entries(&self, width: usize) -> (r: Vec<FileListEntry>)
        requires
            self.line_counts@.len() == self.files@.len(),
            self.file_list_defined(width),
        ensures
            r@.len() == self.files@.len(),
            forall|i: int| 0 <= i < r@.len() ==> {
                let e = #[trigger] r@[i];
                &&& e.active == (self.cursor < self.flat_lines@.len()
                    && self.flat_lines@[self.cursor as int].file_idx == i)
                &&& e.marker@ == file_marker(e.active)
                &&& e.name@ == spec_short_filename(self.files@[i].path@, name_room(width))
                &&& e.adds@ == count_label('+', self.line_counts@[i].0)
                &&& e.dels@ == count_label('-', self.line_counts@[i].1)
            },
    {
        let active = self.active_file_idx();
        let room = if width >= 8 { width - 8 } else { 0 };
        let mut out: Vec<FileListEntry> = Vec::new();
        let mut i: usize = 0;
        while i < self.files.len()
            invariant
                i <= self.files@.len(),
                room == name_room(width),
                self.line_counts@.len() == self.files@.len(),
                self.file_list_defined(width),
                active == (if self.cursor < self.flat_lines@.len() {
                    Some(self.flat_lines@[self.cursor as int].file_idx)
                } else {
                    None
                }),
                out@.len() == i,
                forall|j: int| 0 <= j < i ==> {
                    let e = #[trigger] out@[j];
                    &&& e.active == (self.cursor < self.flat_lines@.len()
                        && self.flat_lines@[self.cursor as int].file_idx == j)
                    &&& e.marker@ == file_marker(e.active)
                    &&& e.name@ == spec_short_filename(self.files@[j].path@, name_room(width))
                    &&& e.adds@ == count_label('+', self.line_counts@[j].0)
                    &&& e.dels@ == count_label('-', self.line_counts@[j].1)
                },
            decreases self.files@.len() - i,
        {
            let is_active = match active {
                Some(a) => a == i,
                None => false,
            };
            let mut marker = String::new();
            if is_active {
                push_char(&mut marker, '\u{25b6}');
            } else {
                push_char(&mut marker, ' ');
            }
            push_char(&mut marker, ' ');
            proof {
                assert(marker@ =~= file_marker(is_active));
                assert(utf8_len(self.files@[i as int].path@) <= usize::MAX);
            }
            let name = short_filename(self.files[i].path.as_str(), room);
            let mut adds = String::new();
            push_count_label(&mut adds, '+', self.line_counts[i].0);
            let mut dels = String::new();
            push_count_label(&mut dels, '-', self.line_counts[i].1);
            proof {
                assert(adds@ =~= count_label('+', self.line_counts@[i as int].0));
                assert(dels@ =~= count_label('-', self.line_counts@[i as int].1));
            }
            out.push(FileListEntry { active: is_active, marker, name, adds, dels });
            i = i + 1;
        }
        out
    }
}

/// The status bar's parts: the mode, the cursor's file, the comment count, the search
/// position and the cursor position.
pub struct StatusLine {
    pub mode: String,
    pub file: String,
    pub annotations: String,
    pub search: String,
    pub position: String,
}

impl App {
    /// The path of the file that the cursor is in, or nothing.
    pub open spec fn cursor_path(&self) -> Seq<char> {
        if self.cursor < self.flat_lines@.len() && self.flat_lines@[self.cursor as int].file_idx < self.files@.len() {
            self.files@[self.flat_lines@[self.cursor as int].file_idx as int].path@
        } else {
            seq![]
        }
    }

    /// The parts of the status bar. The search part shows how many matches lie at or
    /// before the cursor, out of all matches.
    pub fn status_line(&self) -> (r: StatusLine)
        requires
            self.cursor < usize::MAX,
        ensures
            r.mode@ == seq![' '] + spec_label(self.mode) + seq![' '],
            r.file@ == seq![' '] + self.cursor_path() + seq![' '],
            r.annotations@ == (if self.annotations@.len() == 0 {
                seq![]
            } else {
                seq![' ', '['] + decimal(self.annotations@.len()) + seq![']']
            }),
            r.search@ == (if self.search_query@.len() > 0 && self.search_matches@.len() > 0 {
                seq![' ', '/'] + self.search_query@ + seq![' ', '(']
                    + decimal(count_at_most(self.search_matches@, self.cursor)) + seq!['/']
                    + decimal(self.search_matches@.len()) + seq![')']
            } else {
                seq![]
            }),
            r.position@ == seq![' '] + decimal((self.cursor + 1) as nat) + seq!['/'] + decimal(self.flat_lines@.len()) + seq![' '],
    {
        let mut mode = String::new();
        push_char(&mut mode, ' ');
        push_str(&mut mode, self.mode.label());
        push_char(&mut mode, ' ');

        let mut file = String::new();
        push_char(&mut file, ' ');
        match self.file_for_line(self.cursor) {
            Some(f) => push_str(&mut file, f.path.as_str()),
            None => {},
        }
        push_char(&mut file, ' ');

        let mut annotations = String::new();
        if self.annotations.len() > 0 {
            push_char(&mut annotations, ' ');
            push_char(&mut annotations, '[');
            push_decimal(&mut annotations, self.annotations.len() as u64);
            push_char(&mut annotations, ']');
        }

        let mut search = String::new();
        if !self.search_query.as_str().is_empty() && self.search_matches.len() > 0 {
            let at = partition_at_most(&self.search_matches, self.cursor);
            push_char(&mut search, ' ');
            push_char(&mut search, '/');
            push_str(&mut search, self.search_query.as_str());
            push_char(&mut search, ' ');
            push_char(&mut search, '(');
            push_decimal(&mut search, at as u64);
            push_char(&mut search, '/');
            push_decimal(&mut search, self.search_matches.len() as u64);
            push_char(&mut search, ')');
        }

        let mut position = String::new();
        push_char(&mut position, ' ');
        push_decimal(&mut position, (self.cursor + 1) as u64);
        push_char(&mut position, '/');
        push_decimal(&mut position, self.flat_lines.len() as u64);
        push_char(&mut position, ' ');
        proof {
            assert(mode@ =~= seq![' '] + spec_label(self.mode) + seq![' ']);
            assert(file@ =~= seq![' '] + self.cursor_path() + seq![' ']);
            assert(annotations@ =~= (if self.annotations@.len() == 0 {
                seq![]
            } else {
                seq![' ', '['] + decimal(self.annotations@.len()) + seq![']']
            }));
            assert(position@ =~= seq![' '] + decimal((self.cursor + 1) as nat) + seq!['/'] + decimal(self.flat_lines@.len()) + seq![' ']);
        }
        StatusLine { mode, file, annotations, search, position }
    }
}

/// What the line below the status bar shows.
pub enum CommandLine {
    /// The search query being typed.
    Search { query: String },
    /// The comment being typed.
    Comment { text: String },
    /// A hint about the keys of the mode.
    Hint { hint: &'static str },
}

pub open spec fn normal_hint() -> Seq<char> {
    "q:quit  V:visual  /:search  ]c/[c:hunk  Tab:layout"@
}

pub open spec fn visual_hint() -> Seq<char> {
    "c:comment  Esc:cancel  j/k:extend"@
}

impl App {
    /// The command line: the query in search mode, the comment in the comment box,
    /// else the key hints of normal and visual mode.
    pub fn command_line(&self) -> (r: CommandLine)
        ensures
            match self.mode {
                Mode::Command => r matches CommandLine::Search { query } && query@ == self.search_query@,
                Mode::CommentInsert | Mode::CommentNormal => r matches CommandLine::Comment { text } && text@ == self.comment_buf@,
                Mode::Normal => r matches CommandLine::Hint { hint } && hint@ == normal_hint(),
                Mode::VisualLine { .. } => r matches CommandLine::Hint { hint } && hint@ == visual_hint(),
                Mode::VisualBlock { .. } => r matches CommandLine::Hint { hint } && hint@ == Seq::<char>::empty(),
            },
    {
        match self.mode {
            Mode::Command => CommandLine::Search { query: self.search_query.clone() },
            Mode::CommentInsert | Mode::CommentNormal => CommandLine::Comment { text: self.comment_buf.clone() },
            Mode::Normal => CommandLine::Hint { hint: "q:quit  V:visual  /:search  ]c/[c:hunk  Tab:layout" },
            Mode::VisualLine { .. } => CommandLine::Hint { hint: "c:comment  Esc:cancel  j/k:extend" },
            Mode::VisualBlock { .. } => {
                proof {
                    reveal_strlit("");
                }
                CommandLine::Hint { hint: "" }
            },
        }
    }
}

/// How the text of a diff line is drawn.
#[derive(Debug, Clone, Copy, PartialEq, Eq, Structural)]
pub enum ContentStyle {
    /// The cursor line: the diff colors reversed.
    Cursor,
    /// A line of the visual selection.
    Selected,
    /// Any other line: syntax colors over the diff background.
    Syntax,
}

impl App {
    /// How the text of flat line `flat_idx` is drawn.
    pub fn content_style(&self, flat_idx: usize) -> (r: ContentStyle)
        ensures
            r == (if flat_idx == self.cursor {
                ContentStyle::Cursor
            } else if spec_selection(self.mode, self.cursor) matches Some(sel) && sel.0 <= flat_idx <= sel.1 {
                ContentStyle::Selected
            } else {
                ContentStyle::Syntax
            }),
    {
        if flat_idx == self.cursor {
            return ContentStyle::Cursor;
        }
        match self.selection_range() {
            Some(sel) => if sel.0 <= flat_idx && flat_idx <= sel.1 {
                ContentStyle::Selected
            } else {
                ContentStyle::Syntax
            },
            None => ContentStyle::Syntax,
        }
    }
}

/// What one side of the diff panels shows for a line.
#[derive(Debug, Clone, Copy, PartialEq, Eq, Structural)]
pub enum PanelCell {
    /// Nothing: the line does not exist on this side.
    Blank,
    /// The line, with its number on this side and whether the comment marker shows.
    Line { lineno: Option<u32>, marked: bool },
}

/// The left (old) and right (new) cells of a line of kind `kind`: a context line shows on
/// both sides, the marker only on the left; a deleted line only on the left; an added
/// line only on the right.
pub open spec fn cells_for(kind: LineType, old_lineno: Option<u32>, new_lineno: Option<u32>, marked: bool) -> (PanelCell, PanelCell) {
    match kind {
        LineType::Context => (
            PanelCell::Line { lineno: old_lineno, marked },
            PanelCell::Line { lineno: new_lineno, marked: false },
        ),
        LineType::Deletion => (PanelCell::Line { lineno: old_lineno, marked }, PanelCell::Blank),
        LineType::Addition => (PanelCell::Blank, PanelCell::Line { lineno: new_lineno, marked }),
    }
}

impl App {
    /// The left and right cells of flat line `flat_idx`, or `None` when it names no line.
    pub fn panel_cells(&self, flat_idx: usize) -> (r: Option<(PanelCell, PanelCell)>)
        ensures
            match flat_line_at(self.files@, self.flat_lines@, flat_idx as int) {
                Some(l) => r == Some(cells_for(l.kind, l.old_lineno, l.new_lineno,
                    exists|k: int| 0 <= k < self.annotations@.len()
                        && #[trigger] self.annotations@[k].flat_start <= flat_idx && flat_idx <= self.annotations@[k].flat_end)),
                None => r is None,
            },
    {
        let line = match self.get_line(flat_idx) {
            Some(l) => l,
            None => return None,
        };
        let marked = self.is_annotated(flat_idx);
        let cells = match line.kind {
            LineType::Context => (
                PanelCell::Line { lineno: line.old_lineno, marked },
                PanelCell::Line { lineno: line.new_lineno, marked: false },
            ),
            LineType::Deletion => (PanelCell::Line { lineno: line.old_lineno, marked }, PanelCell::Blank),
            LineType::Addition => (PanelCell::Blank, PanelCell::Line { lineno: line.new_lineno, marked }),
        };
        Some(cells)
    }
}

} // verus!
