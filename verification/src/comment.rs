use vstd::prelude::*;

use crate::annotation::{Annotation, AnnotationView};
use crate::app::{App, FlatLine, UiState, annotation_views, flat_line_at};
use crate::diff_model::{DiffFile, spec_prefix};
use crate::keys::{KeyCode, KeyPress};
use crate::mode::Mode;
use crate::text::{decimal, decimal_string, is_blank, pop_char, push_char, push_str, trims_to_empty};

verus! {

/// The numbers in `lines` as a range: the one number, or `first-last`.
pub open spec fn line_range_text(lines: Seq<u32>) -> Option<Seq<char>> {
    if lines.len() == 0 {
        None
    } else if lines[0] == lines.last() {
        Some(decimal(lines[0] as nat))
    } else {
        Some(decimal(lines[0] as nat) + seq!['-'] + decimal(lines.last() as nat))
    }
}

pub open spec fn old_suffix() -> Seq<char> {
    seq!['(', 'o', 'l', 'd', ')']
}

pub open spec fn new_suffix() -> Seq<char> {
    seq!['(', 'n', 'e', 'w', ')']
}

/// The line range of a comment as the written summary shows it: one range when the old and the new
/// numbers agree, else `<old>(old) <new>(new)`, or only the side that has numbers.
pub open spec fn display_range(old_lines: Seq<u32>, new_lines: Seq<u32>) -> Seq<char> {
    match (line_range_text(old_lines), line_range_text(new_lines)) {
        (Some(o), Some(n)) => if o == n {
            o
        } else {
            o + old_suffix() + seq![' '] + n + new_suffix()
        },
        (Some(o), None) => o + old_suffix(),
        (None, Some(n)) => n + new_suffix(),
        (None, None) => seq![],
    }
}

/// `format_line_range`: the numbers as a range, if there are any.
pub fn format_line_range(lines: &Vec<u32>) -> (r: Option<String>)
    ensures
        r is Some <==> line_range_text(lines@) is Some,
        r matches Some(s) ==> s@ == line_range_text(lines@)->0,
{
    if lines.len() == 0 {
        return None;
    }
    let first = lines[0];
    let last = lines[lines.len() - 1];
    let mut s = decimal_string(first as u64);
    if first != last {
        push_char(&mut s, '-');
        let t = decimal_string(last as u64);
        push_str(&mut s, t.as_str());
    }
    Some(s)
}

/// `build_display_range`: the line range of a comment as the summary shows it.
pub fn build_display_range(old_lines: &Vec<u32>, new_lines: &Vec<u32>) -> (r: String)
    ensures
        r@ == display_range(old_lines@, new_lines@),
{
    let old_range = format_line_range(old_lines);
    let new_range = format_line_range(new_lines);
    let mut s = String::new();
    match (old_range, new_range) {
        (Some(o), Some(n)) => {
            if o == n {
                return o;
            }
            push_str(&mut s, o.as_str());
            push_old_suffix(&mut s);
            push_char(&mut s, ' ');
            push_str(&mut s, n.as_str());
            push_new_suffix(&mut s);
        },
        (Some(o), None) => {
            push_str(&mut s, o.as_str());
            push_old_suffix(&mut s);
        },
        (None, Some(n)) => {
            push_str(&mut s, n.as_str());
            push_new_suffix(&mut s);
        },
        (None, None) => {},
    }
    proof {
        assert(s@ =~= display_range(old_lines@, new_lines@));
    }
    s
}

fn push_old_suffix(s: &mut String)
    ensures
        final(s)@ == old(s)@ + old_suffix(),
{
    push_char(s, '(');
    push_char(s, 'o');
    push_char(s, 'l');
    push_char(s, 'd');
    push_char(s, ')');
    proof {
        assert(final(s)@ =~= old(s)@ + old_suffix());
    }
}

fn push_new_suffix(s: &mut String)
    ensures
        final(s)@ == old(s)@ + new_suffix(),
{
    push_char(s, '(');
    push_char(s, 'n');
    push_char(s, 'e');
    push_char(s, 'w');
    push_char(s, ')');
    proof {
        assert(final(s)@ =~= old(s)@ + new_suffix());
    }
}

/// The last index from `i` down to `start` whose line is in file `f`, or `start`.
pub open spec fn last_in_file(flat: Seq<FlatLine>, start: int, i: int, f: usize) -> int
    decreases i - start + 1,
{
    if i < start {
        start
    } else if 0 <= i < flat.len() && flat[i].file_idx == f {
        i
    } else {
        last_in_file(flat, start, i - 1, f)
    }
}

/// The old line numbers of the lines `lo..hi`.
pub open spec fn old_numbers(files: Seq<DiffFile>, flat: Seq<FlatLine>, lo: int, hi: int) -> Seq<u32>
    decreases hi - lo,
{
    if hi <= lo {
        seq![]
    } else {
        old_numbers(files, flat, lo, hi - 1) + match flat_line_at(files, flat, hi - 1) {
            Some(l) => match l.old_lineno {
                Some(n) => seq![n],
                None => seq![],
            },
            None => seq![],
        }
    }
}

/// The new line numbers of the lines `lo..hi`.
pub open spec fn new_numbers(files: Seq<DiffFile>, flat: Seq<FlatLine>, lo: int, hi: int) -> Seq<u32>
    decreases hi - lo,
{
    if hi <= lo {
        seq![]
    } else {
        new_numbers(files, flat, lo, hi - 1) + match flat_line_at(files, flat, hi - 1) {
            Some(l) => match l.new_lineno {
                Some(n) => seq![n],
                None => seq![],
            },
            None => seq![],
        }
    }
}

/// The lines `lo..hi` as a unified diff writes them: prefix, then content.
pub open spec fn context_lines(files: Seq<DiffFile>, flat: Seq<FlatLine>, lo: int, hi: int) -> Seq<Seq<char>>
    decreases hi - lo,
{
    if hi <= lo {
        seq![]
    } else {
        context_lines(files, flat, lo, hi - 1) + match flat_line_at(files, flat, hi - 1) {
            Some(l) => seq![spec_prefix(l.kind) + l.content@],
            None => seq![],
        }
    }
}

/// The parts joined with newlines between them.
pub open spec fn join_lines(parts: Seq<Seq<char>>) -> Seq<char>
    decreases parts.len(),
{
    if parts.len() == 0 {
        seq![]
    } else if parts.len() == 1 {
        parts[0]
    } else {
        join_lines(parts.drop_last()) + seq!['\n'] + parts.last()
    }
}

/// The annotation that a comment on the lines `start..=end` becomes.
pub open spec fn new_annotation(files: Seq<DiffFile>, flat: Seq<FlatLine>, start: usize, end: usize, comment: Seq<char>) -> AnnotationView {
    let f = flat[start as int].file_idx;
    let ce = last_in_file(flat, start as int, end as int, f);
    AnnotationView {
        file: files[f as int].path@,
        flat_start: start,
        flat_end: ce as usize,
        display_range: display_range(old_numbers(files, flat, start as int, ce + 1), new_numbers(files, flat, start as int, ce + 1)),
        diff_context: join_lines(context_lines(files, flat, start as int, ce + 1)),
        comment: comment,
    }
}

/// The state after the comment box is submitted. A blank comment deletes the annotation
/// being edited; a comment on an annotation being edited replaces its text; otherwise a
/// new annotation covers the selected lines, cut off at the end of the first line's file.
pub open spec fn submit_comment(files: Seq<DiffFile>, flat: Seq<FlatLine>, s: UiState) -> UiState {
    if is_blank(s.comment_buf) {
        let anns = match s.editing_annotation {
            Some(idx) => if idx < s.annotations.len() {
                s.annotations.remove(idx as int)
            } else {
                s.annotations
            },
            None => s.annotations,
        };
        UiState { annotations: anns, editing_annotation: None, comment_buf: seq![], ..s }
    } else if s.editing_annotation is Some && s.editing_annotation->0 < s.annotations.len() {
        let idx = s.editing_annotation->0;
        UiState {
            annotations: s.annotations.update(idx as int, AnnotationView { comment: s.comment_buf, ..s.annotations[idx as int] }),
            editing_annotation: None,
            comment_buf: seq![],
            ..s
        }
    } else {
        let range = match s.comment_selection {
            Some(r) => r,
            None => (s.cursor, s.cursor),
        };
        let s1 = UiState { editing_annotation: None, comment_selection: None, ..s };
        if range.0 >= flat.len() || flat[range.0 as int].file_idx >= files.len() {
            s1
        } else {
            UiState {
                annotations: s.annotations.push(new_annotation(files, flat, range.0, range.1, s.comment_buf)),
                comment_buf: seq![],
                ..s1
            }
        }
    }
}


proof fn lemma_last_in_file_past_end(flat: Seq<FlatLine>, start: int, i: int, f: usize)
    requires
        0 <= start < flat.len() <= i + 1,
    ensures
        last_in_file(flat, start, i, f) == last_in_file(flat, start, flat.len() - 1, f),
    decreases i - start + 1,
{
    if i >= flat.len() {
        lemma_last_in_file_past_end(flat, start, i - 1, f);
    }
}

proof fn lemma_join_push(parts: Seq<Seq<char>>, p: Seq<char>)
    ensures
        join_lines(parts.push(p)) == if parts.len() == 0 {
            p
        } else {
            join_lines(parts) + seq!['\n'] + p
        },
{
    assert(parts.push(p).drop_last() =~= parts);
}

impl App {
    /// The last line from `end` down to `start` in file `f`, or `start`.
    fn clamped_end(&self, start: usize, end: usize, f: usize) -> (r: usize)
        requires
            start < self.flat_lines@.len(),
        ensures
            r == last_in_file(self.flat_lines@, start as int, end as int, f),
            start <= r < self.flat_lines@.len(),
    {
        let n = self.flat_lines.len();
        if end < start {
            return start;
        }
        let mut i = if end < n { end } else { n - 1 };
        proof {
            if end >= n {
                lemma_last_in_file_past_end(self.flat_lines@, start as int, end as int, f);
            }
        }
        loop
            invariant
                n == self.flat_lines@.len(),
                start <= i < n,
                last_in_file(self.flat_lines@, start as int, end as int, f)
                    == last_in_file(self.flat_lines@, start as int, i as int, f),
            decreases i,
        {
            if self.flat_lines[i].file_idx == f {
                return i;
            }
            if i == start {
                assert(last_in_file(self.flat_lines@, start as int, start - 1, f) == start);
                return start;
            }
            i = i - 1;
        }
    }

    /// The old and new line numbers and the joined diff text of the lines `start..=end`.
    fn gather_context(&self, start: usize, end: usize) -> (r: (Vec<u32>, Vec<u32>, String))
        requires
            start <= end < self.flat_lines@.len(),
        ensures
            r.0@ == old_numbers(self.files@, self.flat_lines@, start as int, end + 1),
            r.1@ == new_numbers(self.files@, self.flat_lines@, start as int, end + 1),
            r.2@ == join_lines(context_lines(self.files@, self.flat_lines@, start as int, end + 1)),
    {
        let mut olds: Vec<u32> = Vec::new();
        let mut news: Vec<u32> = Vec::new();
        let mut ctx = String::new();
        let mut have_part = false;
        let mut i = start;
        while i <= end
            invariant
                start <= i <= end + 1,
                end < self.flat_lines.len(),
                olds@ == old_numbers(self.files@, self.flat_lines@, start as int, i as int),
                news@ == new_numbers(self.files@, self.flat_lines@, start as int, i as int),
                ctx@ == join_lines(context_lines(self.files@, self.flat_lines@, start as int, i as int)),
                have_part == (context_lines(self.files@, self.flat_lines@, start as int, i as int).len() > 0),
            decreases end + 1 - i,
        {
            let ghost parts = context_lines(self.files@, self.flat_lines@, start as int, i as int);
            match self.get_line(i) {
                Some(line) => {
                    match line.old_lineno {
                        Some(n) => olds.push(n),
                        None => {},
                    }
                    match line.new_lineno {
                        Some(n) => news.push(n),
                        None => {},
                    }
                    let ghost part = spec_prefix(line.kind) + line.content@;
                    proof {
                        lemma_join_push(parts, part);
                        assert(context_lines(self.files@, self.flat_lines@, start as int, i + 1) =~= parts.push(part));
                    }
                    if have_part {
                        push_char(&mut ctx, '\n');
                    }
                    push_str(&mut ctx, line.kind.prefix());
                    push_str(&mut ctx, line.content.as_str());
                    have_part = true;
                    proof {
                        assert(ctx@ =~= join_lines(parts.push(part)));
                    }
                },
                None => {
                    proof {
                        assert(context_lines(self.files@, self.flat_lines@, start as int, i + 1) =~= parts);
                    }
                },
            }
            proof {
                assert(olds@ =~= old_numbers(self.files@, self.flat_lines@, start as int, i + 1));
                assert(news@ =~= new_numbers(self.files@, self.flat_lines@, start as int, i + 1));
            }
            i = i + 1;
        }
        (olds, news, ctx)
    }
}


impl App {
    /// Submits the comment box (see `submit_comment`).
    pub fn submit_comment(&mut self)
        ensures
            final(self).ui() == submit_comment(old(self).files@, old(self).flat_lines@, old(self).ui()),
            final(self).files == old(self).files,
            final(self).flat_lines == old(self).flat_lines,
            final(self).file_starts == old(self).file_starts,
            final(self).line_counts == old(self).line_counts,
    {
        let ghost s0 = self.ui();
        if trims_to_empty(self.comment_buf.as_str()) {
            match self.editing_annotation.take() {
                Some(idx) => {
                    if idx < self.annotations.len() {
                        self.annotations.remove(idx);
                        proof {
                            assert(annotation_views(self.annotations@) =~= s0.annotations.remove(idx as int));
                        }
                    }
                },
                None => {},
            }
            self.comment_buf = String::new();
            proof {
                assert(self.ui() =~= submit_comment(old(self).files@, old(self).flat_lines@, s0));
            }
            return;
        }
        match self.editing_annotation.take() {
            Some(idx) => {
                if idx < self.annotations.len() {
                    let old_ann = &self.annotations[idx];
                    let updated = Annotation {
                        file: old_ann.file.clone(),
                        flat_start: old_ann.flat_start,
                        flat_end: old_ann.flat_end,
                        display_range: old_ann.display_range.clone(),
                        diff_context: old_ann.diff_context.clone(),
                        comment: self.comment_buf.clone(),
                    };
                    self.annotations.set(idx, updated);
                    self.comment_buf = String::new();
                    proof {
                        assert(annotation_views(self.annotations@) =~= s0.annotations.update(
                            idx as int,
                            AnnotationView { comment: s0.comment_buf, ..s0.annotations[idx as int] },
                        ));
                        assert(self.ui() =~= submit_comment(old(self).files@, old(self).flat_lines@, s0));
                    }
                    return;
                }
            },
            None => {},
        }
        let range = match self.comment_selection.take() {
            Some(r) => r,
            None => (self.cursor, self.cursor),
        };
        let start = range.0;
        let end = range.1;
        if start >= self.flat_lines.len() {
            proof {
                assert(self.ui() =~= submit_comment(old(self).files@, old(self).flat_lines@, s0));
            }
            return;
        }
        let f = self.flat_lines[start].file_idx;
        if f >= self.files.len() {
            proof {
                assert(self.ui() =~= submit_comment(old(self).files@, old(self).flat_lines@, s0));
            }
            return;
        }
        let file = self.files[f].path.clone();
        let ce = self.clamped_end(start, end, f);
        let (olds, news, ctx) = self.gather_context(start, ce);
        let display = build_display_range(&olds, &news);
        let ann = Annotation {
            file,
            flat_start: start,
            flat_end: ce,
            display_range: display,
            diff_context: ctx,
            comment: self.comment_buf.clone(),
        };
        proof {
            assert(ann@ == new_annotation(old(self).files@, old(self).flat_lines@, start, end, s0.comment_buf));
        }
        self.annotations.push(ann);
        self.comment_buf = String::new();
        proof {
            assert(annotation_views(self.annotations@) =~= s0.annotations.push(
                new_annotation(old(self).files@, old(self).flat_lines@, start, end, s0.comment_buf),
            ));
            assert(self.ui() =~= submit_comment(old(self).files@, old(self).flat_lines@, s0));
        }
    }
}


/// The state after a key in the comment box's insert mode: Esc leaves for comment-normal
/// mode (or normal mode when the box is empty), Shift-Enter adds a newline, Enter submits,
/// Backspace and characters edit the text.
pub open spec fn comment_insert_step(files: Seq<DiffFile>, flat: Seq<FlatLine>, s: UiState, key: KeyPress) -> UiState {
    match key.code {
        KeyCode::Esc => UiState {
            mode: if s.comment_buf.len() == 0 { Mode::Normal } else { Mode::CommentNormal },
            ..s
        },
        KeyCode::Enter => if key.shift {
            UiState { comment_buf: s.comment_buf.push('\n'), ..s }
        } else {
            UiState { mode: Mode::Normal, ..submit_comment(files, flat, s) }
        },
        KeyCode::Backspace => UiState {
            comment_buf: if s.comment_buf.len() > 0 { s.comment_buf.drop_last() } else { s.comment_buf },
            ..s
        },
        KeyCode::Char(c) => UiState { comment_buf: s.comment_buf.push(c), ..s },
        _ => s,
    }
}

/// The state after a key in the comment box's normal mode: Esc discards the text,
/// `a` or `i` go back to inserting, Enter or `c` submit.
pub open spec fn comment_normal_step(files: Seq<DiffFile>, flat: Seq<FlatLine>, s: UiState, key: KeyPress) -> UiState {
    match key.code {
        KeyCode::Esc => UiState { comment_buf: seq![], mode: Mode::Normal, ..s },
        KeyCode::Char(c) => if c == 'a' || c == 'i' {
            UiState { mode: Mode::CommentInsert, ..s }
        } else if c == 'c' {
            UiState { mode: Mode::Normal, ..submit_comment(files, flat, s) }
        } else {
            s
        },
        KeyCode::Enter => UiState { mode: Mode::Normal, ..submit_comment(files, flat, s) },
        _ => s,
    }
}

impl App {
    /// Handles a key in the comment box's insert mode.
    pub fn handle_comment_insert_key(&mut self, key: KeyPress)
        ensures
            final(self).ui() == comment_insert_step(old(self).files@, old(self).flat_lines@, old(self).ui(), key),
            final(self).files == old(self).files,
            final(self).flat_lines == old(self).flat_lines,
            final(self).file_starts == old(self).file_starts,
            final(self).line_counts == old(self).line_counts,
    {
        match key.code {
            KeyCode::Esc => {
                if self.comment_buf.as_str().is_empty() {
                    self.mode = Mode::Normal;
                } else {
                    self.mode = Mode::CommentNormal;
                }
            },
            KeyCode::Enter => {
                if key.shift {
                    push_char(&mut self.comment_buf, '\n');
                } else {
                    self.submit_comment();
                    self.mode = Mode::Normal;
                }
            },
            KeyCode::Backspace => {
                pop_char(&mut self.comment_buf);
            },
            KeyCode::Char(c) => push_char(&mut self.comment_buf, c),
            _ => {},
        }
        proof {
            assert(self.ui() =~= comment_insert_step(old(self).files@, old(self).flat_lines@, old(self).ui(), key));
        }
    }

    /// Handles a key in the comment box's normal mode.
    pub fn handle_comment_normal_key(&mut self, key: KeyPress)
        ensures
            final(self).ui() == comment_normal_step(old(self).files@, old(self).flat_lines@, old(self).ui(), key),
            final(self).files == old(self).files,
            final(self).flat_lines == old(self).flat_lines,
            final(self).file_starts == old(self).file_starts,
            final(self).line_counts == old(self).line_counts,
    {
        match key.code {
            KeyCode::Esc => {
                self.comment_buf = String::new();
                self.mode = Mode::Normal;
            },
            KeyCode::Char(c) => {
                if c == 'a' || c == 'i' {
                    self.mode = Mode::CommentInsert;
                } else if c == 'c' {
                    self.submit_comment();
                    self.mode = Mode::Normal;
                }
            },
            KeyCode::Enter => {
                self.submit_comment();
                self.mode = Mode::Normal;
            },
            _ => {},
        }
        proof {
            assert(self.ui() =~= comment_normal_step(old(self).files@, old(self).flat_lines@, old(self).ui(), key));
        }
    }
}

} // verus!
