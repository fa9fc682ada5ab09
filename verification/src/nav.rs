use vstd::prelude::*;

use crate::app::{App, FlatLine, Side, UiState, ViewLayout, flat_line_at, last_index, min_usize, spec_selection, annotation_views};
use crate::diff_model::{DiffFile, LineType};
use crate::mode::Mode;
use crate::keys::{KeyCode, KeyPress};

verus! {

/// `v.partition_point(|&m| m <= x)`: how many elements of `v`, from the front, are at most `x`.
pub open spec fn count_at_most(v: Seq<usize>, x: usize) -> nat
    decreases v.len(),
{
    if v.len() == 0 {
        0
    } else if v[0] <= x {
        1 + count_at_most(v.drop_first(), x)
    } else {
        0
    }
}

/// `v.partition_point(|&m| m < x)`: how many elements of `v`, from the front, are below `x`.
pub open spec fn count_below(v: Seq<usize>, x: usize) -> nat
    decreases v.len(),
{
    if v.len() == 0 {
        0
    } else if v[0] < x {
        1 + count_below(v.drop_first(), x)
    } else {
        0
    }
}

proof fn lemma_count_at_most(v: Seq<usize>, x: usize, r: int)
    requires
        0 <= r <= v.len(),
        forall|j: int| 0 <= j < r ==> v[j] <= x,
        r < v.len() ==> v[r] > x,
    ensures
        count_at_most(v, x) == r,
    decreases v.len(),
{
    if v.len() > 0 && r > 0 {
        lemma_count_at_most(v.drop_first(), x, r - 1);
    }
}

proof fn lemma_count_below(v: Seq<usize>, x: usize, r: int)
    requires
        0 <= r <= v.len(),
        forall|j: int| 0 <= j < r ==> v[j] < x,
        r < v.len() ==> v[r] >= x,
    ensures
        count_below(v, x) == r,
    decreases v.len(),
{
    if v.len() > 0 && r > 0 {
        lemma_count_below(v.drop_first(), x, r - 1);
    }
}

/// Counts the elements of `v`, from the front, that are at most `x`.
pub fn partition_at_most(v: &Vec<usize>, x: usize) -> (r: usize)
    ensures
        r == count_at_most(v@, x),
{
    let mut i: usize = 0;
    while i < v.len() && v[i] <= x
        invariant
            i <= v@.len(),
            forall|j: int| 0 <= j < i ==> v@[j] <= x,
        decreases v@.len() - i,
    {
        i = i + 1;
    }
    proof {
        lemma_count_at_most(v@, x, i as int);
    }
    i
}

/// Counts the elements of `v`, from the front, that are below `x`.
pub fn partition_below(v: &Vec<usize>, x: usize) -> (r: usize)
    ensures
        r == count_below(v@, x),
{
    let mut i: usize = 0;
    while i < v.len() && v[i] < x
        invariant
            i <= v@.len(),
            forall|j: int| 0 <= j < i ==> v@[j] < x,
        decreases v@.len() - i,
    {
        i = i + 1;
    }
    proof {
        lemma_count_below(v@, x, i as int);
    }
    i
}

pub proof fn lemma_count_at_most_le(v: Seq<usize>, x: usize)
    ensures
        count_at_most(v, x) <= v.len(),
    decreases v.len(),
{
    if v.len() > 0 {
        lemma_count_at_most_le(v.drop_first(), x);
    }
}

pub proof fn lemma_count_below_le(v: Seq<usize>, x: usize)
    ensures
        count_below(v, x) <= v.len(),
    decreases v.len(),
{
    if v.len() > 0 {
        lemma_count_below_le(v.drop_first(), x);
    }
}

// ---------------------------------------------------------------------------
// Cursor moves, each as a function of the state before it.
// ---------------------------------------------------------------------------

/// The cursor after `H`: the start of the next file, if there is one.
pub open spec fn next_file_cursor(starts: Seq<usize>, cursor: usize) -> usize {
    let pos = count_at_most(starts, cursor);
    if pos < starts.len() {
        starts[pos as int]
    } else {
        cursor
    }
}

/// The cursor after `L`: the start of the previous file, or of this one at its top.
pub open spec fn prev_file_cursor(starts: Seq<usize>, cursor: usize) -> usize {
    let pos = count_at_most(starts, cursor);
    if pos >= 2 {
        starts[pos - 2]
    } else if pos == 1 {
        starts[0]
    } else {
        cursor
    }
}

pub open spec fn same_hunk(fl: FlatLine, f: usize, h: usize) -> bool {
    fl.file_idx == f && fl.hunk_idx == h
}

/// The first index from `k` on whose line lies outside hunk `h` of file `f`.
pub open spec fn first_other_hunk(flat: Seq<FlatLine>, k: int, f: usize, h: usize) -> Option<int>
    decreases flat.len() - k,
{
    if k < 0 || k >= flat.len() {
        None
    } else if !same_hunk(flat[k], f, h) {
        Some(k)
    } else {
        first_other_hunk(flat, k + 1, f, h)
    }
}

/// The cursor after `]`: the first line of the next hunk, if there is one.
pub open spec fn next_hunk_cursor(flat: Seq<FlatLine>, cursor: usize) -> usize {
    if cursor < flat.len() {
        match first_other_hunk(flat, cursor + 1, flat[cursor as int].file_idx, flat[cursor as int].hunk_idx) {
            Some(i) => i as usize,
            None => cursor,
        }
    } else {
        cursor
    }
}

/// From `i` down, the last index before reaching a line outside hunk `h` of file `f`, or 0.
pub open spec fn walk_back_in_hunk(flat: Seq<FlatLine>, i: int, f: usize, h: usize) -> int
    decreases i,
{
    if i > 0 && i < flat.len() && same_hunk(flat[i], f, h) {
        walk_back_in_hunk(flat, i - 1, f, h)
    } else {
        i
    }
}

/// One past the last index at or below `i` whose line is outside hunk `h` of file `f`, or 0.
pub open spec fn hunk_start_at_or_below(flat: Seq<FlatLine>, i: int, f: usize, h: usize) -> int
    decreases i + 1,
{
    if i < 0 {
        0
    } else if i < flat.len() && !same_hunk(flat[i], f, h) {
        i + 1
    } else {
        hunk_start_at_or_below(flat, i - 1, f, h)
    }
}

/// The cursor after `[`: the first line of the hunk before the cursor's hunk.
pub open spec fn prev_hunk_cursor(flat: Seq<FlatLine>, cursor: usize) -> usize {
    if cursor == 0 || cursor >= flat.len() {
        cursor
    } else {
        let prev_end = walk_back_in_hunk(flat, cursor - 1, flat[cursor as int].file_idx, flat[cursor as int].hunk_idx);
        let t = flat[prev_end];
        hunk_start_at_or_below(flat, prev_end, t.file_idx, t.hunk_idx) as usize
    }
}

/// The cursor after `n`: the first search match after the cursor, wrapping to the first.
pub open spec fn next_match_cursor(matches: Seq<usize>, cursor: usize) -> usize {
    if matches.len() == 0 {
        cursor
    } else {
        let pos = count_at_most(matches, cursor);
        if pos < matches.len() {
            matches[pos as int]
        } else {
            matches[0]
        }
    }
}

/// The cursor after `N`: the last search match before the cursor, wrapping to the last.
pub open spec fn prev_match_cursor(matches: Seq<usize>, cursor: usize) -> usize {
    if matches.len() == 0 {
        cursor
    } else {
        let pos = count_below(matches, cursor);
        if pos > 0 {
            matches[pos - 1]
        } else {
            matches.last()
        }
    }
}

/// Whether a line of kind `kind` is blank on the focused side.
pub open spec fn hidden_on(kind: LineType, is_left: bool) -> bool {
    (is_left && kind == LineType::Addition) || (!is_left && kind == LineType::Deletion)
}

pub open spec fn shown_at(files: Seq<DiffFile>, flat: Seq<FlatLine>, i: int, is_left: bool) -> bool {
    flat_line_at(files, flat, i) matches Some(l) && !hidden_on(l.kind, is_left)
}

/// The first index from `k` on whose line shows on the focused side.
pub open spec fn first_shown_from(files: Seq<DiffFile>, flat: Seq<FlatLine>, k: int, is_left: bool) -> Option<int>
    decreases flat.len() - k,
{
    if k < 0 || k >= flat.len() {
        None
    } else if shown_at(files, flat, k, is_left) {
        Some(k)
    } else {
        first_shown_from(files, flat, k + 1, is_left)
    }
}

/// The last index below `k` whose line shows on the focused side.
pub open spec fn last_shown_below(files: Seq<DiffFile>, flat: Seq<FlatLine>, k: int, is_left: bool) -> Option<int>
    decreases k,
{
    if k <= 0 {
        None
    } else if shown_at(files, flat, k - 1, is_left) {
        Some(k - 1)
    } else {
        last_shown_below(files, flat, k - 1, is_left)
    }
}

/// The cursor after focus mode snaps it off a line that is blank on the focused side:
/// to the next line that shows, else the previous one, else where it was.
pub open spec fn snapped_cursor(files: Seq<DiffFile>, flat: Seq<FlatLine>, cursor: usize, side: Side) -> usize {
    let is_left = side == Side::Left;
    if flat_line_at(files, flat, cursor as int) matches Some(l) && hidden_on(l.kind, is_left) {
        match first_shown_from(files, flat, cursor + 1, is_left) {
            Some(i) => i as usize,
            None => match last_shown_below(files, flat, cursor as int, is_left) {
                Some(i) => i as usize,
                None => cursor,
            },
        }
    } else {
        cursor
    }
}

/// The index of the first annotation on exactly the lines `start..=end`.
pub open spec fn find_exact_annotation(anns: Seq<crate::annotation::AnnotationView>, start: usize, end: usize, k: int) -> Option<int>
    decreases anns.len() - k,
{
    if k < 0 || k >= anns.len() {
        None
    } else if anns[k].flat_start == start && anns[k].flat_end == end {
        Some(k)
    } else {
        find_exact_annotation(anns, start, end, k + 1)
    }
}

pub proof fn lemma_find_exact_in_range(anns: Seq<crate::annotation::AnnotationView>, start: usize, end: usize, k: int)
    ensures
        find_exact_annotation(anns, start, end, k) matches Some(i) ==> k <= i < anns.len()
            && anns[i].flat_start == start && anns[i].flat_end == end,
    decreases anns.len() - k,
{
    if 0 <= k < anns.len() {
        lemma_find_exact_in_range(anns, start, end, k + 1);
    }
}

/// The state after `c` opens the comment box on the selection, or on the cursor line:
/// on an annotation that covers exactly those lines, its comment is edited.
pub open spec fn begin_comment(s: UiState) -> UiState {
    let range = match spec_selection(s.mode, s.cursor) {
        Some(r) => r,
        None => (s.cursor, s.cursor),
    };
    match find_exact_annotation(s.annotations, range.0, range.1, 0) {
        Some(idx) => UiState {
            comment_buf: s.annotations[idx].comment,
            comment_selection: Some((s.annotations[idx].flat_start, s.annotations[idx].flat_end)),
            editing_annotation: Some(idx as usize),
            mode: Mode::CommentInsert,
            ..s
        },
        None => UiState {
            comment_buf: seq![],
            comment_selection: Some(range),
            editing_annotation: None,
            mode: Mode::CommentInsert,
            ..s
        },
    }
}

impl App {
    pub(crate) fn clamp_cursor(&mut self)
        ensures
            final(self).ui() == (UiState {
                cursor: min_usize(old(self).cursor, last_index(old(self).flat_lines@.len())),
                ..old(self).ui()
            }),
            final(self).files == old(self).files,
            final(self).flat_lines == old(self).flat_lines,
            final(self).file_starts == old(self).file_starts,
            final(self).line_counts == old(self).line_counts,
    {
        let n = self.flat_lines.len();
        let last = if n == 0 { 0 } else { n - 1 };
        if self.cursor > last {
            self.cursor = last;
        }
    }

    /// Scrolls so that the cursor is in the middle of a viewport `viewport_height` rows high.
    pub(crate) fn center_scroll(&mut self, viewport_height: usize)
        ensures
            final(self).ui() == (UiState {
                scroll_offset: if old(self).cursor >= viewport_height / 2 {
                    (old(self).cursor - viewport_height / 2) as usize
                } else {
                    0
                },
                ..old(self).ui()
            }),
            final(self).files == old(self).files,
            final(self).flat_lines == old(self).flat_lines,
            final(self).file_starts == old(self).file_starts,
            final(self).line_counts == old(self).line_counts,
    {
        let half = viewport_height / 2;
        self.scroll_offset = if self.cursor >= half { self.cursor - half } else { 0 };
    }

    pub(crate) fn jump_next_file(&mut self)
        ensures
            final(self).ui() == (UiState {
                cursor: next_file_cursor(old(self).file_starts@, old(self).cursor),
                ..old(self).ui()
            }),
            final(self).files == old(self).files,
            final(self).flat_lines == old(self).flat_lines,
            final(self).file_starts == old(self).file_starts,
            final(self).line_counts == old(self).line_counts,
    {
        let pos = partition_at_most(&self.file_starts, self.cursor);
        if pos < self.file_starts.len() {
            self.cursor = self.file_starts[pos];
        }
    }

    pub(crate) fn jump_prev_file(&mut self)
        ensures
            final(self).ui() == (UiState {
                cursor: prev_file_cursor(old(self).file_starts@, old(self).cursor),
                ..old(self).ui()
            }),
            final(self).files == old(self).files,
            final(self).flat_lines == old(self).flat_lines,
            final(self).file_starts == old(self).file_starts,
            final(self).line_counts == old(self).line_counts,
    {
        let pos = partition_at_most(&self.file_starts, self.cursor);
        proof {
            lemma_count_at_most_le(self.file_starts@, self.cursor);
        }
        if pos >= 2 {
            self.cursor = self.file_starts[pos - 2];
        } else if pos == 1 {
            self.cursor = self.file_starts[0];
        }
    }

    pub(crate) fn jump_next_hunk(&mut self)
        ensures
            final(self).ui() == (UiState {
                cursor: next_hunk_cursor(old(self).flat_lines@, old(self).cursor),
                ..old(self).ui()
            }),
            final(self).files == old(self).files,
            final(self).flat_lines == old(self).flat_lines,
            final(self).file_starts == old(self).file_starts,
            final(self).line_counts == old(self).line_counts,
    {
        if self.cursor < self.flat_lines.len() {
            let cf = self.flat_lines[self.cursor].file_idx;
            let ch = self.flat_lines[self.cursor].hunk_idx;
            match find_other_hunk(&self.flat_lines, self.cursor + 1, cf, ch) {
                Some(i) => self.cursor = i,
                None => {},
            }
        }
    }

    pub(crate) fn jump_prev_hunk(&mut self)
        ensures
            final(self).ui() == (UiState {
                cursor: prev_hunk_cursor(old(self).flat_lines@, old(self).cursor),
                ..old(self).ui()
            }),
            final(self).files == old(self).files,
            final(self).flat_lines == old(self).flat_lines,
            final(self).file_starts == old(self).file_starts,
            final(self).line_counts == old(self).line_counts,
    {
        if self.cursor == 0 || self.cursor >= self.flat_lines.len() {
            return;
        }
        let cf = self.flat_lines[self.cursor].file_idx;
        let ch = self.flat_lines[self.cursor].hunk_idx;
        let prev_end = walk_back(&self.flat_lines, self.cursor - 1, cf, ch);
        let tf = self.flat_lines[prev_end].file_idx;
        let th = self.flat_lines[prev_end].hunk_idx;
        self.cursor = hunk_start(&self.flat_lines, prev_end, tf, th);
    }

    pub(crate) fn jump_next_search_match(&mut self)
        ensures
            final(self).ui() == (UiState {
                cursor: next_match_cursor(old(self).search_matches@, old(self).cursor),
                ..old(self).ui()
            }),
            final(self).files == old(self).files,
            final(self).flat_lines == old(self).flat_lines,
            final(self).file_starts == old(self).file_starts,
            final(self).line_counts == old(self).line_counts,
    {
        if self.search_matches.len() == 0 {
            return;
        }
        let pos = partition_at_most(&self.search_matches, self.cursor);
        let idx = if pos < self.search_matches.len() { pos } else { 0 };
        self.cursor = self.search_matches[idx];
    }

    pub(crate) fn jump_prev_search_match(&mut self)
        ensures
            final(self).ui() == (UiState {
                cursor: prev_match_cursor(old(self).search_matches@, old(self).cursor),
                ..old(self).ui()
            }),
            final(self).files == old(self).files,
            final(self).flat_lines == old(self).flat_lines,
            final(self).file_starts == old(self).file_starts,
            final(self).line_counts == old(self).line_counts,
    {
        if self.search_matches.len() == 0 {
            return;
        }
        let pos = partition_below(&self.search_matches, self.cursor);
        proof {
            lemma_count_below_le(self.search_matches@, self.cursor);
        }
        let idx = if pos > 0 { pos - 1 } else { self.search_matches.len() - 1 };
        self.cursor = self.search_matches[idx];
    }

    fn line_hidden(&self, i: usize, is_left: bool) -> (r: bool)
        ensures
            r == (flat_line_at(self.files@, self.flat_lines@, i as int) matches Some(l) && hidden_on(l.kind, is_left)),
    {
        match self.get_line(i) {
            Some(l) => (is_left && l.kind == LineType::Addition) || (!is_left && l.kind == LineType::Deletion),
            None => false,
        }
    }

    fn line_shown(&self, i: usize, is_left: bool) -> (r: bool)
        ensures
            r == shown_at(self.files@, self.flat_lines@, i as int, is_left),
    {
        match self.get_line(i) {
            Some(l) => !((is_left && l.kind == LineType::Addition) || (!is_left && l.kind == LineType::Deletion)),
            None => false,
        }
    }

    pub(crate) fn snap_cursor_to_visible_line(&mut self)
        ensures
            final(self).ui() == (UiState {
                cursor: snapped_cursor(old(self).files@, old(self).flat_lines@, old(self).cursor, old(self).focus_side),
                ..old(self).ui()
            }),
            final(self).files == old(self).files,
            final(self).flat_lines == old(self).flat_lines,
            final(self).file_starts == old(self).file_starts,
            final(self).line_counts == old(self).line_counts,
    {
        let is_left = self.focus_side == Side::Left;
        if !self.line_hidden(self.cursor, is_left) {
            return;
        }
        let target = self.snap_target(is_left);
        self.cursor = target;
    }

    fn snap_target(&self, is_left: bool) -> (r: usize)
        requires
            flat_line_at(self.files@, self.flat_lines@, self.cursor as int) is Some,
        ensures
            r == match first_shown_from(self.files@, self.flat_lines@, self.cursor + 1, is_left) {
                Some(i) => i as usize,
                None => match last_shown_below(self.files@, self.flat_lines@, self.cursor as int, is_left) {
                    Some(i) => i as usize,
                    None => self.cursor,
                },
            },
    {
        let n = self.flat_lines.len();
        let mut i = self.cursor + 1;
        while i < n
            invariant
                n == self.flat_lines@.len(),
                self.cursor < i <= n,
                first_shown_from(self.files@, self.flat_lines@, self.cursor + 1, is_left)
                    == first_shown_from(self.files@, self.flat_lines@, i as int, is_left),
            decreases n - i,
        {
            if self.line_shown(i, is_left) {
                return i;
            }
            i = i + 1;
        }
        let mut k = self.cursor;
        while k > 0
            invariant
                k <= self.cursor,
                first_shown_from(self.files@, self.flat_lines@, self.cursor + 1, is_left) is None,
                last_shown_below(self.files@, self.flat_lines@, self.cursor as int, is_left)
                    == last_shown_below(self.files@, self.flat_lines@, k as int, is_left),
            decreases k,
        {
            if self.line_shown(k - 1, is_left) {
                return k - 1;
            }
            k = k - 1;
        }
        self.cursor
    }

    /// Opens the comment box on the selection, or on the cursor line.
    pub(crate) fn begin_comment(&mut self)
        ensures
            final(self).ui() == begin_comment(old(self).ui()),
            final(self).files == old(self).files,
            final(self).flat_lines == old(self).flat_lines,
            final(self).file_starts == old(self).file_starts,
            final(self).line_counts == old(self).line_counts,
    {
        let range = match self.selection_range() {
            Some(r) => r,
            None => (self.cursor, self.cursor),
        };
        proof {
            lemma_find_exact_in_range(annotation_views(self.annotations@), range.0, range.1, 0);
            assert(annotation_views(self.annotations@).len() == self.annotations@.len());
        }
        match find_exact(&self.annotations, range.0, range.1) {
            Some(k) => {
                self.comment_buf = self.annotations[k].comment.clone();
                self.comment_selection = Some((self.annotations[k].flat_start, self.annotations[k].flat_end));
                self.editing_annotation = Some(k);
                proof {
                    assert(annotation_views(self.annotations@)[k as int].comment == self.annotations@[k as int].comment@);
                    assert(old(self).ui().annotations == annotation_views(self.annotations@));
                    assert(range == (match spec_selection(old(self).mode, old(self).cursor) { Some(r) => r, None => (old(self).cursor, old(self).cursor) }));
                    let sp = find_exact_annotation(old(self).ui().annotations, range.0, range.1, 0);
                    lemma_find_exact_in_range(old(self).ui().annotations, range.0, range.1, 0);
                    assert(sp is Some);
                    assert(0 <= sp->0 < self.annotations.len());
                    assert(sp == Some(k as int));
                    assert(self.comment_buf@ == begin_comment(old(self).ui()).comment_buf);
                    assert(self.comment_selection == begin_comment(old(self).ui()).comment_selection);
                    assert(self.editing_annotation == begin_comment(old(self).ui()).editing_annotation);
                }
            },
            None => {
                self.comment_buf = String::new();
                self.comment_selection = Some(range);
                self.editing_annotation = None;
            },
        }
        self.mode = Mode::CommentInsert;
    }
}

/// The index of the first annotation on exactly the lines `start..=end`.
pub fn find_exact(anns: &Vec<crate::annotation::Annotation>, start: usize, end: usize) -> (r: Option<usize>)
    ensures
        r == (match find_exact_annotation(annotation_views(anns@), start, end, 0) {
            Some(i) => Some(i as usize),
            None => None,
        }),
{
    let ghost v = annotation_views(anns@);
    proof {
        lemma_find_exact_in_range(v, start, end, 0);
    }
    let mut k: usize = 0;
    while k < anns.len()
        invariant
            v == annotation_views(anns@),
            k <= anns@.len(),
            find_exact_annotation(v, start, end, 0) == find_exact_annotation(v, start, end, k as int),
        decreases anns@.len() - k,
    {
        if anns[k].flat_start == start && anns[k].flat_end == end {
            return Some(k);
        }
        k = k + 1;
    }
    None
}

/// The first index from `from` on whose line lies outside hunk `h` of file `f`.
pub fn find_other_hunk(flat: &Vec<FlatLine>, from: usize, f: usize, h: usize) -> (r: Option<usize>)
    ensures
        r == (match first_other_hunk(flat@, from as int, f, h) {
            Some(i) => Some(i as usize),
            None => None,
        }),
{
    let mut i = from;
    while i < flat.len()
        invariant
            from <= i,
            first_other_hunk(flat@, from as int, f, h) == first_other_hunk(flat@, i as int, f, h),
        decreases flat@.len() - i,
    {
        if flat[i].file_idx != f || flat[i].hunk_idx != h {
            return Some(i);
        }
        i = i + 1;
    }
    None
}

/// From `i` down, the last index before a line outside hunk `h` of file `f`, or 0.
pub fn walk_back(flat: &Vec<FlatLine>, i: usize, f: usize, h: usize) -> (r: usize)
    requires
        i < flat@.len(),
    ensures
        r == walk_back_in_hunk(flat@, i as int, f, h),
        r <= i,
{
    let mut k = i;
    while k > 0
        invariant
            k <= i < flat@.len(),
            walk_back_in_hunk(flat@, i as int, f, h) == walk_back_in_hunk(flat@, k as int, f, h),
        decreases k,
    {
        if flat[k].file_idx != f || flat[k].hunk_idx != h {
            return k;
        }
        k = k - 1;
    }
    k
}

/// One past the last index at or below `i` whose line lies outside hunk `h` of file `f`, or 0.
pub fn hunk_start(flat: &Vec<FlatLine>, i: usize, f: usize, h: usize) -> (r: usize)
    requires
        i < flat@.len(),
    ensures
        r == hunk_start_at_or_below(flat@, i as int, f, h),
{
    let mut k = i;
    loop
        invariant
            k <= i < flat@.len(),
            hunk_start_at_or_below(flat@, i as int, f, h) == hunk_start_at_or_below(flat@, k as int, f, h),
        decreases k,
    {
        assert(k < flat.len());
        if flat[k].file_idx != f || flat[k].hunk_idx != h {
            return k + 1;
        }
        if k == 0 {
            assert(hunk_start_at_or_below(flat@, -1, f, h) == 0);
            return 0;
        }
        k = k - 1;
    }
}


/// What a key does in normal or visual mode.
#[derive(Debug, Clone, Copy, PartialEq, Eq, Structural)]
pub enum NavAction {
    /// The key after a pending `g`; `gg` goes to the top.
    FinishPending { top: bool },
    Quit,
    Down,
    Up,
    FocusLeft,
    FocusRight,
    HalfPageDown,
    HalfPageUp,
    Bottom,
    NextFile,
    PrevFile,
    ToggleFileList,
    ToggleFocusMode,
    PendingG,
    NextHunk,
    PrevHunk,
    StartVisual,
    StartComment,
    ToggleComments,
    Escape,
    StartSearch,
    NextMatch,
    PrevMatch,
    ToggleLayout,
    Nothing,
}

pub open spec fn is_normal(m: Mode) -> bool {
    m matches Mode::Normal
}

/// The action of `key` in mode `mode` with `pending` keys typed before it.
pub open spec fn nav_action(mode: Mode, pending: Seq<char>, key: KeyPress) -> NavAction {
    if pending.len() > 0 {
        match key.code {
            KeyCode::Char(c) => NavAction::FinishPending { top: pending[0] == 'g' && c == 'g' },
            _ => NavAction::FinishPending { top: false },
        }
    } else {
        match key.code {
            KeyCode::Char(c) => {
                if c == 'q' {
                    NavAction::Quit
                } else if c == 'j' {
                    NavAction::Down
                } else if c == 'k' {
                    NavAction::Up
                } else if c == 'h' {
                    NavAction::FocusLeft
                } else if c == 'l' {
                    NavAction::FocusRight
                } else if c == 'd' && key.ctrl {
                    NavAction::HalfPageDown
                } else if c == 'u' && key.ctrl {
                    NavAction::HalfPageUp
                } else if c == 'G' {
                    NavAction::Bottom
                } else if c == 'H' && is_normal(mode) {
                    NavAction::NextFile
                } else if c == 'L' && is_normal(mode) {
                    NavAction::PrevFile
                } else if c == 'e' && is_normal(mode) {
                    NavAction::ToggleFileList
                } else if c == 'F' && is_normal(mode) {
                    NavAction::ToggleFocusMode
                } else if c == 'g' {
                    NavAction::PendingG
                } else if c == ']' {
                    NavAction::NextHunk
                } else if c == '[' {
                    NavAction::PrevHunk
                } else if c == 'V' && is_normal(mode) {
                    NavAction::StartVisual
                } else if c == 'c' && (is_normal(mode) || mode is VisualLine) {
                    NavAction::StartComment
                } else if c == 'E' && is_normal(mode) {
                    NavAction::ToggleComments
                } else if c == '/' && is_normal(mode) {
                    NavAction::StartSearch
                } else if c == 'n' && is_normal(mode) {
                    NavAction::NextMatch
                } else if c == 'N' && is_normal(mode) {
                    NavAction::PrevMatch
                } else {
                    NavAction::Nothing
                }
            },
            KeyCode::Down => NavAction::Down,
            KeyCode::Up => NavAction::Up,
            KeyCode::Esc => NavAction::Escape,
            KeyCode::Tab => NavAction::ToggleLayout,
            _ => NavAction::Nothing,
        }
    }
}

pub open spec fn toggled_layout(l: ViewLayout) -> ViewLayout {
    match l {
        ViewLayout::SideBySide => ViewLayout::Unified,
        ViewLayout::Unified => ViewLayout::SideBySide,
    }
}

/// `center_scroll`: the scroll offset that puts the cursor in the middle of the viewport.
pub open spec fn centered(s: UiState, viewport_height: usize) -> UiState {
    UiState {
        scroll_offset: if s.cursor >= viewport_height / 2 {
            (s.cursor - viewport_height / 2) as usize
        } else {
            0
        },
        ..s
    }
}

pub open spec fn with_cursor(s: UiState, c: usize) -> UiState {
    UiState { cursor: c, ..s }
}

/// The state after `action`, before the cursor is clamped to the last line.
pub open spec fn nav_apply(
    files: Seq<DiffFile>,
    flat: Seq<FlatLine>,
    starts: Seq<usize>,
    s: UiState,
    action: NavAction,
    viewport_height: usize,
) -> UiState {
    let last = last_index(flat.len());
    match action {
        NavAction::FinishPending { top } => UiState {
            pending_keys: seq![],
            cursor: if top { 0 } else { s.cursor },
            ..s
        },
        NavAction::Quit => UiState { should_quit: true, ..s },
        NavAction::Down => with_cursor(s, if s.cursor < last { (s.cursor + 1) as usize } else { s.cursor }),
        NavAction::Up => with_cursor(s, if s.cursor > 0 { (s.cursor - 1) as usize } else { 0 }),
        NavAction::FocusLeft => UiState { focus_side: Side::Left, ..s },
        NavAction::FocusRight => UiState { focus_side: Side::Right, ..s },
        NavAction::HalfPageDown => centered(
            with_cursor(s, min_usize((s.cursor + viewport_height / 2) as usize, last)),
            viewport_height,
        ),
        NavAction::HalfPageUp => centered(
            with_cursor(s, if s.cursor >= viewport_height / 2 { (s.cursor - viewport_height / 2) as usize } else { 0 }),
            viewport_height,
        ),
        NavAction::Bottom => with_cursor(s, last),
        NavAction::NextFile => centered(with_cursor(s, next_file_cursor(starts, s.cursor)), viewport_height),
        NavAction::PrevFile => centered(with_cursor(s, prev_file_cursor(starts, s.cursor)), viewport_height),
        NavAction::ToggleFileList => UiState { show_file_list: !s.show_file_list, ..s },
        NavAction::ToggleFocusMode => {
            let t = UiState { focus_mode: !s.focus_mode, ..s };
            if t.focus_mode {
                with_cursor(t, snapped_cursor(files, flat, t.cursor, t.focus_side))
            } else {
                t
            }
        },
        NavAction::PendingG => UiState { pending_keys: s.pending_keys.push('g'), ..s },
        NavAction::NextHunk => with_cursor(s, next_hunk_cursor(flat, s.cursor)),
        NavAction::PrevHunk => with_cursor(s, prev_hunk_cursor(flat, s.cursor)),
        NavAction::StartVisual => UiState { mode: Mode::VisualLine { anchor: s.cursor }, ..s },
        NavAction::StartComment => begin_comment(s),
        NavAction::ToggleComments => UiState { show_comments: !s.show_comments, ..s },
        NavAction::Escape => UiState { mode: Mode::Normal, ..s },
        NavAction::StartSearch => UiState { mode: Mode::Command, search_query: seq![], ..s },
        NavAction::NextMatch => centered(with_cursor(s, next_match_cursor(s.search_matches, s.cursor)), viewport_height),
        NavAction::PrevMatch => centered(with_cursor(s, prev_match_cursor(s.search_matches, s.cursor)), viewport_height),
        NavAction::ToggleLayout => UiState { layout: toggled_layout(s.layout), ..s },
        NavAction::Nothing => s,
    }
}

/// The state after a key in normal or visual mode: the action, then, unless it
/// finished a pending key, the cursor clamped to the last line.
pub open spec fn nav_step(
    files: Seq<DiffFile>,
    flat: Seq<FlatLine>,
    starts: Seq<usize>,
    s: UiState,
    key: KeyPress,
    viewport_height: usize,
) -> UiState {
    let action = nav_action(s.mode, s.pending_keys, key);
    let t = nav_apply(files, flat, starts, s, action, viewport_height);
    if action is FinishPending {
        t
    } else {
        with_cursor(t, min_usize(t.cursor, last_index(flat.len())))
    }
}

impl App {
    /// What `key` does in the current mode.
    pub fn nav_action(&self, key: KeyPress) -> (r: NavAction)
        ensures
            r == nav_action(self.mode, self.pending_keys@, key),
    {
        if self.pending_keys.len() > 0 {
            return match key.code {
                KeyCode::Char(c) => NavAction::FinishPending { top: self.pending_keys[0] == 'g' && c == 'g' },
                _ => NavAction::FinishPending { top: false },
            };
        }
        let normal = match self.mode {
            Mode::Normal => true,
            _ => false,
        };
        let visual = match self.mode {
            Mode::VisualLine { .. } => true,
            _ => false,
        };
        match key.code {
            KeyCode::Char(c) => {
                if c == 'q' {
                    NavAction::Quit
                } else if c == 'j' {
                    NavAction::Down
                } else if c == 'k' {
                    NavAction::Up
                } else if c == 'h' {
                    NavAction::FocusLeft
                } else if c == 'l' {
                    NavAction::FocusRight
                } else if c == 'd' && key.ctrl {
                    NavAction::HalfPageDown
                } else if c == 'u' && key.ctrl {
                    NavAction::HalfPageUp
                } else if c == 'G' {
                    NavAction::Bottom
                } else if c == 'H' && normal {
                    NavAction::NextFile
                } else if c == 'L' && normal {
                    NavAction::PrevFile
                } else if c == 'e' && normal {
                    NavAction::ToggleFileList
                } else if c == 'F' && normal {
                    NavAction::ToggleFocusMode
                } else if c == 'g' {
                    NavAction::PendingG
                } else if c == ']' {
                    NavAction::NextHunk
                } else if c == '[' {
                    NavAction::PrevHunk
                } else if c == 'V' && normal {
                    NavAction::StartVisual
                } else if c == 'c' && (normal || visual) {
                    NavAction::StartComment
                } else if c == 'E' && normal {
                    NavAction::ToggleComments
                } else if c == '/' && normal {
                    NavAction::StartSearch
                } else if c == 'n' && normal {
                    NavAction::NextMatch
                } else if c == 'N' && normal {
                    NavAction::PrevMatch
                } else {
                    NavAction::Nothing
                }
            },
            KeyCode::Down => NavAction::Down,
            KeyCode::Up => NavAction::Up,
            KeyCode::Esc => NavAction::Escape,
            KeyCode::Tab => NavAction::ToggleLayout,
            _ => NavAction::Nothing,
        }
    }

    /// Carries out `action`, leaving the cursor unclamped.
    #[verifier::spinoff_prover]
    #[verifier::rlimit(50)]
    fn apply_action(&mut self, action: NavAction, viewport_height: usize)
        requires
            action is HalfPageDown ==> old(self).cursor + viewport_height / 2 <= usize::MAX,
        ensures
            final(self).ui() == nav_apply(
                old(self).files@,
                old(self).flat_lines@,
                old(self).file_starts@,
                old(self).ui(),
                action,
                viewport_height,
            ),
            final(self).files == old(self).files,
            final(self).flat_lines == old(self).flat_lines,
            final(self).file_starts == old(self).file_starts,
            final(self).line_counts == old(self).line_counts,
    {
        let half_page = viewport_height / 2;
        match action {
            NavAction::FinishPending { top } => {
                self.pending_keys.clear();
                if top {
                    self.cursor = 0;
                }
            },
            NavAction::Quit => self.should_quit = true,
            NavAction::Down => {
                let n = self.flat_lines.len();
                let last = if n == 0 { 0 } else { n - 1 };
                if self.cursor < last {
                    self.cursor = self.cursor + 1;
                }
            },
            NavAction::Up => {
                self.cursor = if self.cursor > 0 { self.cursor - 1 } else { 0 };
            },
            NavAction::FocusLeft => self.focus_side = Side::Left,
            NavAction::FocusRight => self.focus_side = Side::Right,
            NavAction::HalfPageDown => {
                let n = self.flat_lines.len();
                let last = if n == 0 { 0 } else { n - 1 };
                let down = self.cursor + half_page;
                self.cursor = if down <= last { down } else { last };
                self.center_scroll(viewport_height);
            },
            NavAction::HalfPageUp => {
                self.cursor = if self.cursor >= half_page { self.cursor - half_page } else { 0 };
                self.center_scroll(viewport_height);
            },
            NavAction::Bottom => {
                let n = self.flat_lines.len();
                self.cursor = if n == 0 { 0 } else { n - 1 };
            },
            NavAction::NextFile => {
                self.jump_next_file();
                self.center_scroll(viewport_height);
            },
            NavAction::PrevFile => {
                self.jump_prev_file();
                self.center_scroll(viewport_height);
            },
            NavAction::ToggleFileList => self.show_file_list = !self.show_file_list,
            NavAction::ToggleFocusMode => {
                self.focus_mode = !self.focus_mode;
                if self.focus_mode {
                    self.snap_cursor_to_visible_line();
                }
            },
            NavAction::PendingG => self.pending_keys.push('g'),
            NavAction::NextHunk => self.jump_next_hunk(),
            NavAction::PrevHunk => self.jump_prev_hunk(),
            NavAction::StartVisual => {
                self.mode = Mode::VisualLine { anchor: self.cursor };
            },
            NavAction::StartComment => self.begin_comment(),
            NavAction::ToggleComments => self.show_comments = !self.show_comments,
            NavAction::Escape => self.mode = Mode::Normal,
            NavAction::StartSearch => {
                self.mode = Mode::Command;
                self.search_query = String::new();
            },
            NavAction::NextMatch => {
                self.jump_next_search_match();
                self.center_scroll(viewport_height);
            },
            NavAction::PrevMatch => {
                self.jump_prev_search_match();
                self.center_scroll(viewport_height);
            },
            NavAction::ToggleLayout => {
                self.layout = match self.layout {
                    ViewLayout::SideBySide => ViewLayout::Unified,
                    ViewLayout::Unified => ViewLayout::SideBySide,
                };
            },
            NavAction::Nothing => {},
        }
    }

    /// Handles a key in normal or visual mode, in a viewport `viewport_height` rows high.
    pub fn handle_nav_key(&mut self, key: KeyPress, viewport_height: usize)
        requires
            nav_action(old(self).mode, old(self).pending_keys@, key) is HalfPageDown
                ==> old(self).cursor + viewport_height / 2 <= usize::MAX,
        ensures
            final(self).ui() == nav_step(
                old(self).files@,
                old(self).flat_lines@,
                old(self).file_starts@,
                old(self).ui(),
                key,
                viewport_height,
            ),
            final(self).files == old(self).files,
            final(self).flat_lines == old(self).flat_lines,
            final(self).file_starts == old(self).file_starts,
            final(self).line_counts == old(self).line_counts,
    {
        let action = self.nav_action(key);
        self.apply_action(action, viewport_height);
        match action {
            NavAction::FinishPending { .. } => {},
            _ => self.clamp_cursor(),
        }
    }
}


/// The state after a key in a terminal `viewport_height` rows high: the comment box and the
/// search line take their own keys; the diff takes the rest, with two rows of the terminal
/// kept for the status bar and the command line.
pub open spec fn key_step(
    files: Seq<DiffFile>,
    flat: Seq<FlatLine>,
    starts: Seq<usize>,
    s: UiState,
    key: KeyPress,
    viewport_height: usize,
) -> UiState {
    match s.mode {
        Mode::CommentInsert => crate::comment::comment_insert_step(files, flat, s, key),
        Mode::CommentNormal => crate::comment::comment_normal_step(files, flat, s, key),
        Mode::Command => crate::search::command_step(files, flat, s, key),
        _ => nav_step(files, flat, starts, s, key, content_height(viewport_height)),
    }
}

/// The rows of the diff in a terminal `viewport_height` rows high.
pub open spec fn content_height(viewport_height: usize) -> usize {
    if viewport_height >= 2 { (viewport_height - 2) as usize } else { 0 }
}

impl App {
    /// Handles a key in a terminal `viewport_height` rows high.
    pub fn handle_key(&mut self, key: KeyPress, viewport_height: usize)
        requires
            !(old(self).mode is CommentInsert || old(self).mode is CommentNormal || old(self).mode is Command)
                && nav_action(old(self).mode, old(self).pending_keys@, key) is HalfPageDown
                ==> old(self).cursor + content_height(viewport_height) / 2 <= usize::MAX,
        ensures
            final(self).ui() == key_step(
                old(self).files@,
                old(self).flat_lines@,
                old(self).file_starts@,
                old(self).ui(),
                key,
                viewport_height,
            ),
            final(self).files == old(self).files,
            final(self).flat_lines == old(self).flat_lines,
            final(self).file_starts == old(self).file_starts,
            final(self).line_counts == old(self).line_counts,
            old(self).wf() ==> final(self).wf(),
    {
        let content_height = if viewport_height >= 2 { viewport_height - 2 } else { 0 };
        match self.mode {
            Mode::CommentInsert => self.handle_comment_insert_key(key),
            Mode::CommentNormal => self.handle_comment_normal_key(key),
            Mode::Command => self.handle_command_key(key),
            _ => self.handle_nav_key(key, content_height),
        }
    }
}

} // verus!
