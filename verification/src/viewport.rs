use vstd::prelude::*;

use crate::annotation::{Annotation, AnnotationView};
use crate::app::{App, FlatLine, UiState, annotation_views, flat_line_at};
use crate::diff_model::DiffFile;
use crate::text::{count_lines, line_count};

verus! {

/// What a scan over flat lines remembers: the rows counted, the file and the hunk
/// whose header rows were last drawn.
pub struct RowScan {
    pub rows: nat,
    pub last_file: Option<usize>,
    pub last_hunk: Option<(usize, usize)>,
}

pub open spec fn scan_start() -> RowScan {
    RowScan { rows: 0, last_file: None, last_hunk: None }
}

/// The index of the first annotation whose lines cover `idx`, searching from `k`.
pub open spec fn first_covering(anns: Seq<AnnotationView>, idx: usize, k: int) -> Option<int>
    decreases anns.len() - k,
{
    if k < 0 || k >= anns.len() {
        None
    } else if anns[k].flat_start <= idx && idx <= anns[k].flat_end {
        Some(k)
    } else {
        first_covering(anns, idx, k + 1)
    }
}

/// The rows of expanded comment drawn after line `idx`, when the rows up to line `to` are counted:
/// the lines of the first annotation covering `idx`, if it ends there and `idx` is before `to`.
pub open spec fn comment_rows(anns: Seq<AnnotationView>, show: bool, idx: usize, to: usize) -> nat {
    if show && idx < to {
        match first_covering(anns, idx, 0) {
            Some(k) => if idx == anns[k].flat_end {
                line_count(anns[k].comment)
            } else {
                0
            },
            None => 0,
        }
    } else {
        0
    }
}

/// The scan after line `fl`: a file header row when the file changes, a hunk header
/// row at the first line of a hunk not yet headed, the line itself, and `extra` comment rows.
pub open spec fn scan_step(st: RowScan, fl: FlatLine, extra: nat) -> RowScan {
    let new_file = st.last_file != Some(fl.file_idx);
    let rows1 = if new_file { st.rows + 1 } else { st.rows };
    let hunk1 = if new_file { None } else { st.last_hunk };
    let new_hunk = hunk1 != Some((fl.file_idx, fl.hunk_idx)) && fl.line_idx == 0;
    let rows2 = if new_hunk { rows1 + 1 } else { rows1 };
    let hunk2 = if new_hunk { Some((fl.file_idx, fl.hunk_idx)) } else { hunk1 };
    RowScan { rows: rows2 + 1 + extra, last_file: Some(fl.file_idx), last_hunk: hunk2 }
}

/// The scan over the `n` lines from `from` on, counting comments before `to`.
pub open spec fn row_scan(
    flat: Seq<FlatLine>,
    anns: Seq<AnnotationView>,
    show: bool,
    to: usize,
    from: int,
    n: nat,
) -> RowScan
    decreases n,
{
    if n == 0 {
        scan_start()
    } else {
        scan_step(
            row_scan(flat, anns, show, to, from, (n - 1) as nat),
            flat[from + n - 1],
            comment_rows(anns, show, (from + n - 1) as usize, to),
        )
    }
}

/// The last flat index that counting up to `to` reaches.
pub open spec fn scan_end(len: nat, to: usize) -> int {
    if to < len { to as int } else { len - 1 }
}

/// The screen rows that the lines `from..=to` take, with their file and hunk headers
/// and, when comments are shown, the comments that end before `to`.
pub open spec fn rows_between(flat: Seq<FlatLine>, anns: Seq<AnnotationView>, show: bool, from: usize, to: usize) -> nat {
    if flat.len() == 0 || from >= flat.len() {
        0
    } else {
        row_scan(flat, anns, show, to, from as int, (scan_end(flat.len(), to) - from + 1) as nat).rows
    }
}

pub open spec fn sat(n: nat) -> usize {
    if n <= usize::MAX { n as usize } else { usize::MAX }
}

/// The scan over the `n` lines from `i` on, from state `st`.
pub open spec fn scan_from(
    flat: Seq<FlatLine>,
    anns: Seq<AnnotationView>,
    show: bool,
    to: usize,
    st: RowScan,
    i: int,
    n: nat,
) -> RowScan
    decreases n,
{
    if n == 0 {
        st
    } else {
        scan_from(flat, anns, show, to, scan_step(st, flat[i], comment_rows(anns, show, i as usize, to)), i + 1, (n - 1) as nat)
    }
}

proof fn lemma_scan_from_last(
    flat: Seq<FlatLine>,
    anns: Seq<AnnotationView>,
    show: bool,
    to: usize,
    st: RowScan,
    i: int,
    n: nat,
)
    ensures
        scan_from(flat, anns, show, to, st, i, n + 1) == scan_step(
            scan_from(flat, anns, show, to, st, i, n),
            flat[i + n],
            comment_rows(anns, show, (i + n) as usize, to),
        ),
    decreases n,
{
    let st1 = scan_step(st, flat[i], comment_rows(anns, show, i as usize, to));
    if n > 0 {
        lemma_scan_from_last(flat, anns, show, to, st1, i + 1, (n - 1) as nat);
    } else {
        assert(scan_from(flat, anns, show, to, st1, i + 1, 0) == st1);
        assert(scan_from(flat, anns, show, to, st, i, 1) == scan_from(flat, anns, show, to, st1, i + 1, 0));
    }
}

proof fn lemma_row_scan_is_scan_from(
    flat: Seq<FlatLine>,
    anns: Seq<AnnotationView>,
    show: bool,
    to: usize,
    from: int,
    n: nat,
)
    ensures
        row_scan(flat, anns, show, to, from, n) == scan_from(flat, anns, show, to, scan_start(), from, n),
    decreases n,
{
    if n > 0 {
        lemma_row_scan_is_scan_from(flat, anns, show, to, from, (n - 1) as nat);
        lemma_scan_from_last(flat, anns, show, to, scan_start(), from, (n - 1) as nat);
    }
}

/// A scan state that a scan can reach: a remembered hunk lies in the remembered file.
pub open spec fn reachable(st: RowScan) -> bool {
    st.last_hunk matches Some(p) ==> st.last_file == Some(p.0)
}

/// How far apart two scan states are in what they remember.
pub open spec fn scan_distance(a: RowScan, b: RowScan) -> nat {
    (if a.last_file != b.last_file { 1nat } else { 0nat }) + (if a.last_hunk != b.last_hunk { 1nat } else { 0nat })
}

proof fn lemma_step_distance(a: RowScan, b: RowScan, fl: FlatLine, extra: nat)
    requires
        reachable(a),
        reachable(b),
    ensures
        reachable(scan_step(a, fl, extra)),
        scan_step(a, fl, extra).rows - a.rows + scan_distance(scan_step(a, fl, extra), scan_step(b, fl, extra))
            <= scan_step(b, fl, extra).rows - b.rows + scan_distance(a, b),
{
}

proof fn lemma_scan_distance(
    flat: Seq<FlatLine>,
    anns: Seq<AnnotationView>,
    show: bool,
    to: usize,
    a: RowScan,
    b: RowScan,
    i: int,
    n: nat,
)
    requires
        reachable(a),
        reachable(b),
    ensures
        scan_from(flat, anns, show, to, a, i, n).rows - a.rows
            <= scan_from(flat, anns, show, to, b, i, n).rows - b.rows + scan_distance(a, b),
        scan_from(flat, anns, show, to, a, i, n).rows >= a.rows,
    decreases n,
{
    if n > 0 {
        let x = comment_rows(anns, show, i as usize, to);
        let a1 = scan_step(a, flat[i], x);
        let b1 = scan_step(b, flat[i], x);
        lemma_step_distance(a, b, flat[i], x);
        lemma_step_distance(b, a, flat[i], x);
        lemma_scan_distance(flat, anns, show, to, a1, b1, i + 1, (n - 1) as nat);
    }
}

/// Starting the count one line later never counts more rows.
proof fn lemma_rows_step(flat: Seq<FlatLine>, anns: Seq<AnnotationView>, show: bool, a: usize, to: usize)
    requires
        a < to,
    ensures
        rows_between(flat, anns, show, (a + 1) as usize, to) <= rows_between(flat, anns, show, a, to),
{
    let b = (a + 1) as usize;
    if flat.len() > 0 && b < flat.len() {
        let end = scan_end(flat.len(), to);
        let n = (end - a + 1) as nat;
        let x = comment_rows(anns, show, a, to);
        let s1 = scan_step(scan_start(), flat[a as int], x);
        lemma_row_scan_is_scan_from(flat, anns, show, to, a as int, n);
        lemma_row_scan_is_scan_from(flat, anns, show, to, b as int, (n - 1) as nat);
        assert(scan_from(flat, anns, show, to, scan_start(), a as int, n)
            == scan_from(flat, anns, show, to, s1, b as int, (n - 1) as nat));
        lemma_scan_distance(flat, anns, show, to, scan_start(), s1, b as int, (n - 1) as nat);
    }
}

/// The rows from `b` to `to` are no more than the rows from `a <= b` to `to`.
pub proof fn lemma_rows_monotone(flat: Seq<FlatLine>, anns: Seq<AnnotationView>, show: bool, a: usize, b: usize, to: usize)
    requires
        a <= b <= to,
    ensures
        rows_between(flat, anns, show, b, to) <= rows_between(flat, anns, show, a, to),
    decreases b - a,
{
    if a < b {
        lemma_rows_monotone(flat, anns, show, a, (b - 1) as usize, to);
        lemma_rows_step(flat, anns, show, (b - 1) as usize, to);
    }
}

/// Counting comments before a later line counts at least as many rows, and the scan
/// remembers the same headers.
proof fn lemma_scan_later_end(flat: Seq<FlatLine>, anns: Seq<AnnotationView>, show: bool, t1: usize, t2: usize, from: int, n: nat)
    requires
        t1 <= t2,
    ensures
        row_scan(flat, anns, show, t1, from, n).rows <= row_scan(flat, anns, show, t2, from, n).rows,
        row_scan(flat, anns, show, t1, from, n).last_file == row_scan(flat, anns, show, t2, from, n).last_file,
        row_scan(flat, anns, show, t1, from, n).last_hunk == row_scan(flat, anns, show, t2, from, n).last_hunk,
    decreases n,
{
    if n > 0 {
        lemma_scan_later_end(flat, anns, show, t1, t2, from, (n - 1) as nat);
    }
}

/// A scan over more lines counts at least one more row for each line added.
pub proof fn lemma_scan_rows_grow(flat: Seq<FlatLine>, anns: Seq<AnnotationView>, show: bool, to: usize, from: int, n: nat, m: nat)
    requires
        n <= m,
    ensures
        row_scan(flat, anns, show, to, from, n).rows + (m - n) <= row_scan(flat, anns, show, to, from, m).rows,
    decreases m,
{
    if n < m {
        lemma_scan_rows_grow(flat, anns, show, to, from, n, (m - 1) as nat);
    }
}

/// The rows from `from` to `t2` are no fewer than the rows from `from` to `t1 <= t2`.
pub proof fn lemma_rows_monotone_end(flat: Seq<FlatLine>, anns: Seq<AnnotationView>, show: bool, from: usize, t1: usize, t2: usize)
    requires
        from <= t1 + 1,
        t1 <= t2,
    ensures
        rows_between(flat, anns, show, from, t1) <= rows_between(flat, anns, show, from, t2),
{
    if flat.len() > 0 && from < flat.len() {
        let n1 = (scan_end(flat.len(), t1) - from + 1) as nat;
        let n2 = (scan_end(flat.len(), t2) - from + 1) as nat;
        lemma_scan_later_end(flat, anns, show, t1, t2, from as int, n1);
        lemma_scan_rows_grow(flat, anns, show, t2, from as int, n1, n2);
    }
}

impl App {
    /// `rows_between` over this session's lines, annotations and comment display.
    pub open spec fn spec_rows_between(&self, from: usize, to: usize) -> nat {
        rows_between(self.flat_lines@, annotation_views(self.annotations@), self.show_comments, from, to)
    }

    /// The screen rows that the lines from `from` to `to` take (saturating at `usize::MAX`).
    pub fn rendered_rows_between(&self, from: usize, to: usize) -> (r: usize)
        requires
            from < self.flat_lines@.len() ==> from <= to + 1,
        ensures
            r == sat(self.spec_rows_between(from, to)),
    {
        let n = self.flat_lines.len();
        if n == 0 || from >= n {
            return 0;
        }
        let end = if to < n { to } else { n - 1 };
        let ghost anns = annotation_views(self.annotations@);
        let mut rows: usize = 0;
        let mut last_file: Option<usize> = None;
        let mut last_hunk: Option<(usize, usize)> = None;
        let mut i = from;
        while i <= end
            invariant
                n == self.flat_lines@.len(),
                from < n,
                end == scan_end(n as nat, to),
                from <= i <= end + 1,
                anns == annotation_views(self.annotations@),
                ({
                    let st = row_scan(self.flat_lines@, anns, self.show_comments, to, from as int, (i - from) as nat);
                    &&& rows == sat(st.rows)
                    &&& last_file == st.last_file
                    &&& last_hunk == st.last_hunk
                }),
            decreases end + 1 - i,
        {
            let fl = self.flat_lines[i];
            if last_file != Some(fl.file_idx) {
                rows = rows.saturating_add(1);
                last_file = Some(fl.file_idx);
                last_hunk = None;
            }
            let same_hunk = match last_hunk {
                Some(p) => p.0 == fl.file_idx && p.1 == fl.hunk_idx,
                None => false,
            };
            if !same_hunk && fl.line_idx == 0 {
                rows = rows.saturating_add(1);
                last_hunk = Some((fl.file_idx, fl.hunk_idx));
            }
            rows = rows.saturating_add(1);
            let extra = self.comment_rows_at(i, to);
            rows = rows.saturating_add(extra);
            i = i + 1;
        }
        rows
    }

    /// The rows of expanded comment after line `idx` (saturating).
    fn comment_rows_at(&self, idx: usize, to: usize) -> (r: usize)
        ensures
            r == comment_rows(annotation_views(self.annotations@), self.show_comments, idx, to),
    {
        if !self.show_comments || idx >= to {
            return 0;
        }
        let ghost anns = annotation_views(self.annotations@);
        let mut k: usize = 0;
        while k < self.annotations.len()
            invariant
                anns == annotation_views(self.annotations@),
                self.show_comments,
                idx < to,
                k <= self.annotations@.len(),
                first_covering(anns, idx, 0) == first_covering(anns, idx, k as int),
            decreases self.annotations@.len() - k,
        {
            let a = &self.annotations[k];
            proof {
                assert(anns[k as int] == self.annotations@[k as int]@);
            }
            if a.flat_start <= idx && idx <= a.flat_end {
                assert(first_covering(anns, idx, k as int) == Some(k as int));
                if idx == a.flat_end {
                    let c = count_lines(a.comment.as_str());
                    assert(c == line_count(anns[k as int].comment));
                    return c;
                } else {
                    return 0;
                }
            }
            k = k + 1;
        }
        0
    }
}


/// The rows from line `s` to line `cursor` exceed the viewport.
pub open spec fn overflows(app: App, s: usize, cursor: usize, viewport_height: usize) -> bool {
    sat(app.spec_rows_between(s, cursor)) > viewport_height
}

impl App {
    /// Scrolls the least that keeps the cursor line within a viewport `viewport_height` rows high:
    /// up to the cursor when it is above the viewport, else down to the first line from which
    /// the rows up to the cursor fit, or to the cursor when none does.
    pub fn ensure_visible(&mut self, viewport_height: usize)
        ensures
            final(self).ui() == (UiState { scroll_offset: final(self).scroll_offset, ..old(self).ui() }),
            final(self).files == old(self).files,
            final(self).flat_lines == old(self).flat_lines,
            final(self).file_starts == old(self).file_starts,
            final(self).line_counts == old(self).line_counts,
            old(self).cursor < old(self).scroll_offset ==> final(self).scroll_offset == old(self).cursor,
            old(self).cursor >= old(self).scroll_offset ==> {
                &&& old(self).scroll_offset <= final(self).scroll_offset <= old(self).cursor
                &&& forall|s: usize|
                    old(self).scroll_offset <= s < final(self).scroll_offset
                        ==> overflows(*old(self), s, old(self).cursor, viewport_height)
                &&& (final(self).scroll_offset == old(self).cursor
                    || !overflows(*old(self), final(self).scroll_offset, old(self).cursor, viewport_height))
            },
    {
        if self.cursor < self.scroll_offset {
            self.scroll_offset = self.cursor;
            return;
        }
        if self.rendered_rows_between(self.scroll_offset, self.cursor) <= viewport_height {
            return;
        }
        let target = self.first_fitting_offset(viewport_height);
        self.scroll_offset = target;
    }

    /// The binary search of `ensure_visible` over `scroll_offset..=cursor`.
    fn first_fitting_offset(&self, viewport_height: usize) -> (r: usize)
        requires
            self.scroll_offset <= self.cursor,
            overflows(*self, self.scroll_offset, self.cursor, viewport_height),
        ensures
            self.scroll_offset <= r <= self.cursor,
            forall|s: usize| self.scroll_offset <= s < r ==> overflows(*self, s, self.cursor, viewport_height),
            r == self.cursor || !overflows(*self, r, self.cursor, viewport_height),
    {
        let mut lo = self.scroll_offset;
        let mut hi = self.cursor;
        while lo < hi
            invariant
                self.scroll_offset <= lo <= hi <= self.cursor,
                forall|s: usize| self.scroll_offset <= s < lo ==> overflows(*self, s, self.cursor, viewport_height),
                hi == self.cursor || !overflows(*self, hi, self.cursor, viewport_height),
            decreases hi - lo,
        {
            let mid = lo + (hi - lo) / 2;
            if self.rendered_rows_between(mid, self.cursor) > viewport_height {
                proof {
                    assert forall|s: usize| self.scroll_offset <= s < mid + 1 implies overflows(*self, s, self.cursor, viewport_height) by {
                        lemma_rows_monotone(
                            self.flat_lines@,
                            annotation_views(self.annotations@),
                            self.show_comments,
                            s,
                            mid,
                            self.cursor,
                        );
                    }
                }
                lo = mid + 1;
            } else {
                hi = mid;
            }
        }
        lo
    }
}


/// One row of the diff panels.
#[derive(Debug, Clone, Copy, PartialEq, Eq, Structural)]
pub enum RowKind {
    /// The header naming a file.
    FileHeader { file_idx: usize },
    /// The `@@` header of a hunk.
    HunkHeader { file_idx: usize, hunk_idx: usize },
    /// The diff line at a flat index.
    Line { flat_idx: usize },
}

/// The rows that the diff panels draw from line `i` on, after the rows `acc`, in a
/// viewport `height` rows high: a file header when the file changes, a hunk header at
/// the first line of a hunk, then the line; until the viewport is full or the lines end.
pub open spec fn layout_rows(
    files: Seq<DiffFile>,
    flat: Seq<FlatLine>,
    height: usize,
    i: int,
    acc: Seq<RowKind>,
    last_file: Option<usize>,
    last_hunk: Option<(usize, usize)>,
) -> Seq<RowKind>
    decreases flat.len() - i,
{
    if i < 0 || i >= flat.len() || acc.len() >= height || flat_line_at(files, flat, i) is None {
        acc
    } else {
        let fl = flat[i];
        let new_file = last_file != Some(fl.file_idx);
        let acc1 = if new_file { acc.push(RowKind::FileHeader { file_idx: fl.file_idx }) } else { acc };
        let hunk1 = if new_file { None } else { last_hunk };
        let new_hunk = hunk1 != Some((fl.file_idx, fl.hunk_idx)) && fl.line_idx == 0;
        if new_hunk && acc1.len() >= height {
            acc1
        } else {
            let acc2 = if new_hunk {
                acc1.push(RowKind::HunkHeader { file_idx: fl.file_idx, hunk_idx: fl.hunk_idx })
            } else {
                acc1
            };
            let hunk2 = if new_hunk { Some((fl.file_idx, fl.hunk_idx)) } else { hunk1 };
            if acc2.len() >= height {
                acc2
            } else {
                layout_rows(
                    files,
                    flat,
                    height,
                    i + 1,
                    acc2.push(RowKind::Line { flat_idx: i as usize }),
                    Some(fl.file_idx),
                    hunk2,
                )
            }
        }
    }
}

pub proof fn lemma_layout_rows_len(
    files: Seq<DiffFile>,
    flat: Seq<FlatLine>,
    height: usize,
    i: int,
    acc: Seq<RowKind>,
    last_file: Option<usize>,
    last_hunk: Option<(usize, usize)>,
)
    requires
        acc.len() <= height,
    ensures
        layout_rows(files, flat, height, i, acc, last_file, last_hunk).len() <= height,
        acc.len() <= layout_rows(files, flat, height, i, acc, last_file, last_hunk).len(),
    decreases flat.len() - i,
{
    if !(i < 0 || i >= flat.len() || acc.len() >= height || flat_line_at(files, flat, i) is None) {
        let fl = flat[i];
        let new_file = last_file != Some(fl.file_idx);
        let acc1 = if new_file { acc.push(RowKind::FileHeader { file_idx: fl.file_idx }) } else { acc };
        let hunk1 = if new_file { None } else { last_hunk };
        let new_hunk = hunk1 != Some((fl.file_idx, fl.hunk_idx)) && fl.line_idx == 0;
        if !(new_hunk && acc1.len() >= height) {
            let acc2 = if new_hunk {
                acc1.push(RowKind::HunkHeader { file_idx: fl.file_idx, hunk_idx: fl.hunk_idx })
            } else {
                acc1
            };
            let hunk2 = if new_hunk { Some((fl.file_idx, fl.hunk_idx)) } else { hunk1 };
            if acc2.len() < height {
                lemma_layout_rows_len(
                    files,
                    flat,
                    height,
                    i + 1,
                    acc2.push(RowKind::Line { flat_idx: i as usize }),
                    Some(fl.file_idx),
                    hunk2,
                );
            }
        }
    }
}

/// The rows for the `n` lines from `from` on with no height limit, with the file and the hunk
/// whose headers were drawn last: for each line a file header when its file differs from the
/// line before, a hunk header at the first line of a hunk not yet headed, then the line.
pub open spec fn panel_rows(flat: Seq<FlatLine>, from: int, n: nat) -> (Seq<RowKind>, Option<usize>, Option<(usize, usize)>)
    decreases n,
{
    if n == 0 {
        (seq![], None, None)
    } else {
        let p = panel_rows(flat, from, (n - 1) as nat);
        let i = from + n - 1;
        let fl = flat[i];
        let new_file = p.1 != Some(fl.file_idx);
        let rows1 = if new_file { p.0.push(RowKind::FileHeader { file_idx: fl.file_idx }) } else { p.0 };
        let hunk1 = if new_file { None } else { p.2 };
        let new_hunk = hunk1 != Some((fl.file_idx, fl.hunk_idx)) && fl.line_idx == 0;
        let rows2 = if new_hunk {
            rows1.push(RowKind::HunkHeader { file_idx: fl.file_idx, hunk_idx: fl.hunk_idx })
        } else {
            rows1
        };
        let hunk2 = if new_hunk { Some((fl.file_idx, fl.hunk_idx)) } else { hunk1 };
        (rows2.push(RowKind::Line { flat_idx: i as usize }), Some(fl.file_idx), hunk2)
    }
}

/// The unlimited rows have as many rows as a scan without comments counts.
pub proof fn lemma_panel_rows_count(flat: Seq<FlatLine>, anns: Seq<AnnotationView>, to: usize, from: int, n: nat)
    ensures
        panel_rows(flat, from, n).0.len() == row_scan(flat, anns, false, to, from, n).rows,
        panel_rows(flat, from, n).1 == row_scan(flat, anns, false, to, from, n).last_file,
        panel_rows(flat, from, n).2 == row_scan(flat, anns, false, to, from, n).last_hunk,
    decreases n,
{
    if n > 0 {
        lemma_panel_rows_count(flat, anns, to, from, (n - 1) as nat);
    }
}

/// The rows for fewer lines are a prefix of the rows for more.
proof fn lemma_panel_rows_prefix(flat: Seq<FlatLine>, from: int, n: nat, m: nat)
    requires
        n <= m,
    ensures
        panel_rows(flat, from, n).0.len() <= panel_rows(flat, from, m).0.len(),
        panel_rows(flat, from, m).0.take(panel_rows(flat, from, n).0.len() as int) == panel_rows(flat, from, n).0,
    decreases m,
{
    if n < m {
        lemma_panel_rows_prefix(flat, from, n, (m - 1) as nat);
        let a = panel_rows(flat, from, n).0;
        let b = panel_rows(flat, from, (m - 1) as nat).0;
        let c = panel_rows(flat, from, m).0;
        assert(c.take(b.len() as int) =~= b);
        assert(c.take(a.len() as int) =~= b.take(a.len() as int));
    } else {
        assert(panel_rows(flat, from, m).0.take(panel_rows(flat, from, m).0.len() as int) =~= panel_rows(flat, from, m).0);
    }
}

/// From the state after the lines `from..i`, the panels draw the unlimited rows of the lines
/// `from..` cut to the height.
proof fn lemma_layout_is_cut(files: Seq<DiffFile>, flat: Seq<FlatLine>, height: usize, from: int, i: int)
    requires
        0 <= from <= i <= flat.len(),
        forall|k: int| from <= k < flat.len() ==> flat_line_at(files, flat, k) is Some,
        panel_rows(flat, from, (i - from) as nat).0.len() <= height,
    ensures
        ({
            let p = panel_rows(flat, from, (i - from) as nat);
            let full = panel_rows(flat, from, (flat.len() - from) as nat).0;
            layout_rows(files, flat, height, i, p.0, p.1, p.2)
                == full.take(if full.len() < height { full.len() as int } else { height as int })
        }),
    decreases flat.len() - i,
{
    let p = panel_rows(flat, from, (i - from) as nat);
    let full = panel_rows(flat, from, (flat.len() - from) as nat).0;
    let cut = if full.len() < height { full.len() as int } else { height as int };
    lemma_panel_rows_prefix(flat, from, (i - from) as nat, (flat.len() - from) as nat);
    if i == flat.len() {
        assert(full.take(cut) =~= full);
    } else if p.0.len() >= height {
        assert(full.take(cut) =~= p.0);
    } else {
        let q = panel_rows(flat, from, (i - from + 1) as nat);
        lemma_panel_rows_prefix(flat, from, (i - from + 1) as nat, (flat.len() - from) as nat);
        assert(q.0.len() <= full.len());
        assert(full.take(q.0.len() as int) == q.0);
        let fl = flat[i];
        let new_file = p.1 != Some(fl.file_idx);
        let acc1 = if new_file { p.0.push(RowKind::FileHeader { file_idx: fl.file_idx }) } else { p.0 };
        let hunk1 = if new_file { None } else { p.2 };
        let new_hunk = hunk1 != Some((fl.file_idx, fl.hunk_idx)) && fl.line_idx == 0;
        let acc2 = if new_hunk {
            acc1.push(RowKind::HunkHeader { file_idx: fl.file_idx, hunk_idx: fl.hunk_idx })
        } else {
            acc1
        };
        assert(q.0 == acc2.push(RowKind::Line { flat_idx: i as usize }));
        assert(acc1 =~= q.0.take(acc1.len() as int));
        assert(acc2 =~= q.0.take(acc2.len() as int));
        if new_hunk && acc1.len() >= height {
            assert(acc1.len() == height);
            assert(full.take(cut) =~= q.0.take(height as int));
        } else if acc2.len() >= height {
            assert(acc2.len() == height);
            assert(full.take(cut) =~= q.0.take(height as int));
        } else {
            lemma_layout_is_cut(files, flat, height, from, i + 1);
        }
    }
}

/// The diff panels draw, from line `from` on, the rows of the lines `from..` with their
/// file and hunk headers (`panel_rows`), in order, cut to the viewport's height: as many
/// rows as the lesser of the height and the rows that a count without comments gives to
/// the end of the view.
pub proof fn lemma_panel_rows(
    files: Seq<DiffFile>,
    flat: Seq<FlatLine>,
    anns: Seq<AnnotationView>,
    height: usize,
    from: usize,
)
    requires
        from < flat.len() <= usize::MAX,
        forall|k: int| from <= k < flat.len() ==> flat_line_at(files, flat, k) is Some,
    ensures
        ({
            let full = panel_rows(flat, from as int, (flat.len() - from) as nat).0;
            let count = rows_between(flat, anns, false, from, usize::MAX);
            let drawn = layout_rows(files, flat, height, from as int, seq![], None, None);
            &&& full.len() == count
            &&& drawn.len() == if count < height { count } else { height as nat }
            &&& drawn == full.take(drawn.len() as int)
        }),
{
    lemma_layout_is_cut(files, flat, height, from as int, from as int);
    lemma_panel_rows_count(flat, anns, usize::MAX, from as int, (flat.len() - from) as nat);
    assert(panel_rows(flat, from as int, 0) == (Seq::<RowKind>::empty(), None::<usize>, None::<(usize, usize)>));
}

impl App {
    /// The rows that the diff panels show, from the scroll offset down, in a
    /// viewport `viewport_height` rows high.
    pub fn visible_rows(&self, viewport_height: usize) -> (r: Vec<RowKind>)
        ensures
            r@ == layout_rows(self.files@, self.flat_lines@, viewport_height, self.scroll_offset as int, seq![], None, None),
            r@.len() <= viewport_height,
    {
        let mut rows: Vec<RowKind> = Vec::new();
        let mut last_file: Option<usize> = None;
        let mut last_hunk: Option<(usize, usize)> = None;
        let mut i = self.scroll_offset;
        let n = self.flat_lines.len();
        let ghost files = self.files@;
        let ghost flat = self.flat_lines@;
        proof {
            lemma_layout_rows_len(files, flat, viewport_height, i as int, seq![], None, None);
        }
        while i < n && rows.len() < viewport_height
            invariant_except_break
                layout_rows(files, flat, viewport_height, self.scroll_offset as int, seq![], None, None)
                    == layout_rows(files, flat, viewport_height, i as int, rows@, last_file, last_hunk),
            invariant
                n == flat.len(),
                files == self.files@,
                flat == self.flat_lines@,
                rows@.len() <= viewport_height,
            ensures
                layout_rows(files, flat, viewport_height, self.scroll_offset as int, seq![], None, None) == rows@,
            decreases n - i,
        {
            if self.get_line(i).is_none() {
                break;
            }
            let fl = self.flat_lines[i];
            let new_file = match last_file {
                Some(f) => f != fl.file_idx,
                None => true,
            };
            if new_file {
                rows.push(RowKind::FileHeader { file_idx: fl.file_idx });
                last_file = Some(fl.file_idx);
                last_hunk = None;
            }
            let same_hunk = match last_hunk {
                Some(p) => p.0 == fl.file_idx && p.1 == fl.hunk_idx,
                None => false,
            };
            let new_hunk = !same_hunk && fl.line_idx == 0;
            if new_hunk {
                if rows.len() >= viewport_height {
                    break;
                }
                rows.push(RowKind::HunkHeader { file_idx: fl.file_idx, hunk_idx: fl.hunk_idx });
                last_hunk = Some((fl.file_idx, fl.hunk_idx));
            }
            if rows.len() >= viewport_height {
                break;
            }
            rows.push(RowKind::Line { flat_idx: i });
            i = i + 1;
        }
        rows
    }

    /// Whether some annotation covers flat line `idx`.
    pub fn is_annotated(&self, idx: usize) -> (r: bool)
        ensures
            r == exists|k: int| 0 <= k < self.annotations@.len()
                && #[trigger] self.annotations@[k].flat_start <= idx && idx <= self.annotations@[k].flat_end,
    {
        let mut k: usize = 0;
        while k < self.annotations.len()
            invariant
                k <= self.annotations@.len(),
                forall|j: int| 0 <= j < k ==> !(#[trigger] self.annotations@[j].flat_start <= idx && idx <= self.annotations@[j].flat_end),
            decreases self.annotations@.len() - k,
        {
            if self.annotations[k].flat_start <= idx && idx <= self.annotations[k].flat_end {
                return true;
            }
            k = k + 1;
        }
        false
    }
}

} // verus!
