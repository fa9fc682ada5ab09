//! Properties of the library that span several functions or every input.

use vstd::prelude::*;

use crate::annotation::AnnotationView;
use crate::app::{FlatLine, UiState, file_flat, flat_line_at, hunk_flat, last_index, spec_file_starts, spec_flat_lines, spec_selection};
use crate::comment::{comment_insert_step, last_in_file, submit_comment};
use crate::diff_model::{DiffFile, Hunk, hunks_line_total};
use crate::keys::{KeyCode, KeyPress};
use crate::mode::Mode;
use crate::nav::{begin_comment, first_other_hunk, hunk_start_at_or_below, next_hunk_cursor, prev_hunk_cursor, same_hunk, walk_back_in_hunk, count_at_most, count_below, find_exact_annotation, lemma_find_exact_in_range, nav_action, nav_step, next_file_cursor, next_match_cursor, prev_file_cursor, prev_match_cursor};
use crate::search::{line_matches, matches_below, search_results};
use crate::text::{contains_seq, is_blank, lowercase, occurs_at};
use crate::tmux::panes_of;
use crate::viewport::{RowKind, lemma_scan_rows_grow, comment_rows, layout_rows, overflows, row_scan, rows_between, scan_end, scan_start, scan_step};
use crate::app::{App, annotation_views};

verus! {

/// `a` comes before `b` in file, hunk, line order.
pub open spec fn flat_before(a: FlatLine, b: FlatLine) -> bool {
    a.file_idx < b.file_idx || (a.file_idx == b.file_idx && (a.hunk_idx < b.hunk_idx
        || (a.hunk_idx == b.hunk_idx && a.line_idx < b.line_idx)))
}

/// Whether `s` has a position naming line `l` of hunk `h` of file `f`.
pub open spec fn has_position(s: Seq<FlatLine>, f: int, h: int, l: int) -> bool {
    exists|i: int| 0 <= i < s.len()
        && #[trigger] s[i] == (FlatLine { file_idx: f as usize, hunk_idx: h as usize, line_idx: l as usize })
}

/// The number of lines over all files.
pub open spec fn files_line_total(files: Seq<DiffFile>) -> nat
    decreases files.len(),
{
    if files.len() == 0 {
        0
    } else {
        files_line_total(files.drop_last()) + hunks_line_total(files.last().hunks@)
    }
}

proof fn lemma_file_flat(fi: nat, hunks: Seq<Hunk>)
    requires
        fi <= usize::MAX,
        hunks.len() <= usize::MAX + 1,
        forall|h: int| 0 <= h < hunks.len() ==> (#[trigger] hunks[h]).lines@.len() <= usize::MAX + 1,
    ensures
        file_flat(fi, hunks).len() == hunks_line_total(hunks),
        forall|i: int| 0 <= i < file_flat(fi, hunks).len() ==> {
            let x = #[trigger] file_flat(fi, hunks)[i];
            &&& x.file_idx == fi
            &&& x.hunk_idx < hunks.len()
            &&& x.line_idx < hunks[x.hunk_idx as int].lines@.len()
        },
        forall|i: int, j: int| 0 <= i < j < file_flat(fi, hunks).len()
            ==> flat_before(file_flat(fi, hunks)[i], file_flat(fi, hunks)[j]),
        forall|h: int, l: int| 0 <= h < hunks.len() && 0 <= l < hunks[h].lines@.len()
            ==> #[trigger] has_position(file_flat(fi, hunks), fi as int, h, l),
    decreases hunks.len(),
{
    if hunks.len() > 0 {
        let prev = hunks.drop_last();
        lemma_file_flat(fi, prev);
        let a = file_flat(fi, prev);
        let hi = (hunks.len() - 1) as nat;
        let b = hunk_flat(fi, hi, hunks.last().lines@.len());
        let ff = file_flat(fi, hunks);
        assert(ff == a + b);
        assert forall|i: int| 0 <= i < ff.len() implies {
            let x = #[trigger] ff[i];
            &&& x.file_idx == fi
            &&& x.hunk_idx < hunks.len()
            &&& x.line_idx < hunks[x.hunk_idx as int].lines@.len()
        } by {
            if i < a.len() {
                assert(ff[i] == a[i]);
                assert(prev[a[i].hunk_idx as int] == hunks[a[i].hunk_idx as int]);
            } else {
                assert(ff[i] == b[i - a.len()]);
            }
        }
        assert forall|i: int, j: int| 0 <= i < j < ff.len() implies flat_before(ff[i], ff[j]) by {
            if j < a.len() {
                assert(ff[i] == a[i] && ff[j] == a[j]);
            } else if i < a.len() {
                assert(ff[i] == a[i] && ff[j] == b[j - a.len()]);
            } else {
                assert(ff[i] == b[i - a.len()] && ff[j] == b[j - a.len()]);
            }
        }
        assert forall|h: int, l: int| 0 <= h < hunks.len() && 0 <= l < hunks[h].lines@.len()
            implies #[trigger] has_position(ff, fi as int, h, l) by {
            if h < prev.len() {
                assert(prev[h] == hunks[h]);
                assert(has_position(a, fi as int, h, l));
                let i = choose|i: int| 0 <= i < a.len()
                    && #[trigger] a[i] == (FlatLine { file_idx: fi as usize, hunk_idx: h as usize, line_idx: l as usize });
                assert(ff[i] == a[i]);
            } else {
                let i = a.len() + l;
                assert(ff[i] == b[l]);
            }
        }
    }
}

/// The flattened view lists every line of every hunk of every file exactly once, in
/// file, hunk and line order: each position names a line, each line has a position,
/// positions are strictly ordered, and there are as many positions as lines.
pub proof fn lemma_flat_lines_enumerate(files: Seq<DiffFile>)
    requires
        files.len() <= usize::MAX + 1,
        forall|f: int| 0 <= f < files.len() ==> (#[trigger] files[f]).hunks@.len() <= usize::MAX + 1,
        forall|f: int, h: int| 0 <= f < files.len() && 0 <= h < files[f].hunks@.len()
            ==> (#[trigger] files[f].hunks@[h]).lines@.len() <= usize::MAX + 1,
    ensures
        spec_flat_lines(files).len() == files_line_total(files),
        forall|i: int| 0 <= i < spec_flat_lines(files).len() ==> {
            let x = #[trigger] spec_flat_lines(files)[i];
            &&& x.file_idx < files.len()
            &&& x.hunk_idx < files[x.file_idx as int].hunks@.len()
            &&& x.line_idx < files[x.file_idx as int].hunks@[x.hunk_idx as int].lines@.len()
        },
        forall|i: int, j: int| 0 <= i < j < spec_flat_lines(files).len()
            ==> flat_before(spec_flat_lines(files)[i], spec_flat_lines(files)[j]),
        forall|f: int, h: int, l: int|
            0 <= f < files.len() && 0 <= h < files[f].hunks@.len() && 0 <= l < files[f].hunks@[h].lines@.len()
            ==> #[trigger] has_position(spec_flat_lines(files), f, h, l),
    decreases files.len(),
{
    if files.len() > 0 {
        let prev = files.drop_last();
        assert forall|f: int| 0 <= f < prev.len() implies (#[trigger] prev[f]).hunks@.len() <= usize::MAX + 1 by {
            assert(prev[f] == files[f]);
        }
        assert forall|f: int, h: int| 0 <= f < prev.len() && 0 <= h < prev[f].hunks@.len()
            implies (#[trigger] prev[f].hunks@[h]).lines@.len() <= usize::MAX + 1 by {
            assert(prev[f] == files[f]);
        }
        lemma_flat_lines_enumerate(prev);
        let fi = (files.len() - 1) as nat;
        let last = files.last();
        assert forall|h: int| 0 <= h < last.hunks@.len() implies (#[trigger] last.hunks@[h]).lines@.len() <= usize::MAX + 1 by {
            assert(files[fi as int] == last);
        }
        lemma_file_flat(fi, last.hunks@);
        let a = spec_flat_lines(prev);
        let b = file_flat(fi, last.hunks@);
        let s = spec_flat_lines(files);
        assert(s == a + b);
        assert forall|i: int| 0 <= i < s.len() implies {
            let x = #[trigger] s[i];
            &&& x.file_idx < files.len()
            &&& x.hunk_idx < files[x.file_idx as int].hunks@.len()
            &&& x.line_idx < files[x.file_idx as int].hunks@[x.hunk_idx as int].lines@.len()
        } by {
            if i < a.len() {
                assert(s[i] == a[i]);
                assert(prev[a[i].file_idx as int] == files[a[i].file_idx as int]);
            } else {
                assert(s[i] == b[i - a.len()]);
            }
        }
        assert forall|i: int, j: int| 0 <= i < j < s.len() implies flat_before(s[i], s[j]) by {
            if j < a.len() {
                assert(s[i] == a[i] && s[j] == a[j]);
            } else if i < a.len() {
                assert(s[i] == a[i] && s[j] == b[j - a.len()]);
            } else {
                assert(s[i] == b[i - a.len()] && s[j] == b[j - a.len()]);
            }
        }
        assert forall|f: int, h: int, l: int|
            0 <= f < files.len() && 0 <= h < files[f].hunks@.len() && 0 <= l < files[f].hunks@[h].lines@.len()
            implies #[trigger] has_position(s, f, h, l) by {
            if f < prev.len() {
                assert(prev[f] == files[f]);
                assert(has_position(a, f, h, l));
                let i = choose|i: int| 0 <= i < a.len()
                    && #[trigger] a[i] == (FlatLine { file_idx: f as usize, hunk_idx: h as usize, line_idx: l as usize });
                assert(s[i] == a[i]);
            } else {
                assert(has_position(b, fi as int, h, l));
                let j = choose|j: int| 0 <= j < b.len()
                    && #[trigger] b[j] == (FlatLine { file_idx: fi as usize, hunk_idx: h as usize, line_idx: l as usize });
                assert(s[a.len() + j] == b[j]);
            }
        }
    }
}

/// Whether a new file begins at position `i` of `fl`.
pub open spec fn starts_file(fl: Seq<FlatLine>, i: int) -> bool {
    0 <= i < fl.len() && (i == 0 || fl[i - 1].file_idx != fl[i].file_idx)
}

/// The file starts are exactly the positions where a new file begins, in increasing order.
pub proof fn lemma_file_starts(fl: Seq<FlatLine>)
    requires
        fl.len() <= usize::MAX + 1,
    ensures
        forall|k: int| 0 <= k < spec_file_starts(fl).len() ==> starts_file(fl, #[trigger] spec_file_starts(fl)[k] as int),
        forall|i: int| starts_file(fl, i) ==> spec_file_starts(fl).contains(i as usize),
        forall|k: int, m: int| 0 <= k < m < spec_file_starts(fl).len()
            ==> spec_file_starts(fl)[k] < spec_file_starts(fl)[m],
    decreases fl.len(),
{
    if fl.len() > 0 {
        let p = fl.drop_last();
        lemma_file_starts(p);
        let sp = spec_file_starts(p);
        let s = spec_file_starts(fl);
        let n = fl.len() - 1;
        assert forall|i: int| starts_file(p, i) implies starts_file(fl, i) by {
            assert(p[i] == fl[i]);
            if i > 0 {
                assert(p[i - 1] == fl[i - 1]);
            }
        }
        assert forall|i: int| 0 <= i < n && starts_file(fl, i) implies starts_file(p, i) by {
            assert(p[i] == fl[i]);
            if i > 0 {
                assert(p[i - 1] == fl[i - 1]);
            }
        }
        assert forall|k: int| 0 <= k < sp.len() implies (#[trigger] sp[k]) < n by {
            assert(starts_file(p, sp[k] as int));
        }
        if starts_file(fl, n) {
            assert(s == sp.push(n as usize));
            assert forall|i: int| starts_file(fl, i) implies s.contains(i as usize) by {
                if i < n {
                    assert(starts_file(p, i));
                    assert(sp.contains(i as usize));
                    let k = choose|k: int| 0 <= k < sp.len() && sp[k] == i as usize;
                    assert(s[k] == sp[k]);
                } else {
                    assert(s[sp.len() as int] == n as usize);
                }
            }
        } else {
            assert(s == sp);
            assert forall|i: int| starts_file(fl, i) implies s.contains(i as usize) by {
                assert(i < n);
                assert(starts_file(p, i));
            }
        }
    }
}


/// After any key in normal or visual mode, other than the one that completes a pending
/// `g`, the cursor is on a line of the view (or at 0 when the view is empty).
pub proof fn lemma_nav_keeps_cursor_in_view(
    files: Seq<DiffFile>,
    flat: Seq<FlatLine>,
    starts: Seq<usize>,
    s: UiState,
    key: KeyPress,
    viewport_height: usize,
)
    requires
        !(nav_action(s.mode, s.pending_keys, key) is FinishPending),
    ensures
        nav_step(files, flat, starts, s, key, viewport_height).cursor <= last_index(flat.len()),
{
}

/// `gg` moves the cursor to the first line and clears the pending key.
pub proof fn lemma_gg_goes_to_top(
    files: Seq<DiffFile>,
    flat: Seq<FlatLine>,
    starts: Seq<usize>,
    s: UiState,
    viewport_height: usize,
    ctrl: bool,
    shift: bool,
)
    requires
        s.pending_keys == seq!['g'],
    ensures
        nav_step(files, flat, starts, s, KeyPress { code: KeyCode::Char('g'), ctrl, shift }, viewport_height).cursor == 0,
        nav_step(files, flat, starts, s, KeyPress { code: KeyCode::Char('g'), ctrl, shift }, viewport_height).pending_keys.len() == 0,
{
}

/// Tab twice gives back the layout it started from.
pub proof fn lemma_tab_twice_restores_layout(
    files: Seq<DiffFile>,
    flat: Seq<FlatLine>,
    starts: Seq<usize>,
    s: UiState,
    viewport_height: usize,
    key: KeyPress,
)
    requires
        s.pending_keys.len() == 0,
        key.code == KeyCode::Tab,
    ensures
        nav_step(files, flat, starts, nav_step(files, flat, starts, s, key, viewport_height), key, viewport_height).layout
            == s.layout,
{
}

/// In normal mode, `e` twice gives back the file list's visibility, and `E` twice the
/// comments' display.
pub proof fn lemma_toggles_undo(
    files: Seq<DiffFile>,
    flat: Seq<FlatLine>,
    starts: Seq<usize>,
    s: UiState,
    viewport_height: usize,
    ctrl: bool,
    shift: bool,
)
    requires
        s.pending_keys.len() == 0,
        s.mode == Mode::Normal,
    ensures
        ({
            let e = KeyPress { code: KeyCode::Char('e'), ctrl, shift };
            nav_step(files, flat, starts, nav_step(files, flat, starts, s, e, viewport_height), e, viewport_height).show_file_list
                == s.show_file_list
        }),
        ({
            let e = KeyPress { code: KeyCode::Char('E'), ctrl, shift };
            nav_step(files, flat, starts, nav_step(files, flat, starts, s, e, viewport_height), e, viewport_height).show_comments
                == s.show_comments
        }),
{
}

/// The visual selection runs from the smaller to the larger of the anchor and the cursor.
pub proof fn lemma_selection_ordered(anchor: usize, cursor: usize)
    ensures
        spec_selection(Mode::VisualLine { anchor }, cursor) matches Some(r) && r.0 <= r.1
            && (r == (anchor, cursor) || r == (cursor, anchor)),
{
}

pub open spec fn strictly_increasing(v: Seq<usize>) -> bool {
    forall|i: int, j: int| 0 <= i < j < v.len() ==> v[i] < v[j]
}

proof fn lemma_count_at_most_sorted(v: Seq<usize>, x: usize)
    requires
        strictly_increasing(v),
    ensures
        count_at_most(v, x) <= v.len(),
        forall|k: int| 0 <= k < count_at_most(v, x) ==> v[k] <= x,
        forall|k: int| count_at_most(v, x) <= k < v.len() ==> v[k] > x,
    decreases v.len(),
{
    if v.len() > 0 {
        let t = v.drop_first();
        assert forall|i: int, j: int| 0 <= i < j < t.len() implies t[i] < t[j] by {
            assert(t[i] == v[i + 1] && t[j] == v[j + 1]);
        }
        lemma_count_at_most_sorted(t, x);
        if v[0] <= x {
            assert forall|k: int| 0 <= k < count_at_most(v, x) implies v[k] <= x by {
                if k > 0 {
                    assert(v[k] == t[k - 1]);
                }
            }
            assert forall|k: int| count_at_most(v, x) <= k < v.len() implies v[k] > x by {
                assert(v[k] == t[k - 1]);
            }
        } else {
            assert forall|k: int| 0 <= k < v.len() implies v[k] > x by {
                if k > 0 {
                    assert(v[0] < v[k]);
                }
            }
        }
    }
}

proof fn lemma_count_below_sorted(v: Seq<usize>, x: usize)
    requires
        strictly_increasing(v),
    ensures
        count_below(v, x) <= v.len(),
        forall|k: int| 0 <= k < count_below(v, x) ==> v[k] < x,
        forall|k: int| count_below(v, x) <= k < v.len() ==> v[k] >= x,
    decreases v.len(),
{
    if v.len() > 0 {
        let t = v.drop_first();
        assert forall|i: int, j: int| 0 <= i < j < t.len() implies t[i] < t[j] by {
            assert(t[i] == v[i + 1] && t[j] == v[j + 1]);
        }
        lemma_count_below_sorted(t, x);
        if v[0] < x {
            assert forall|k: int| 0 <= k < count_below(v, x) implies v[k] < x by {
                if k > 0 {
                    assert(v[k] == t[k - 1]);
                }
            }
            assert forall|k: int| count_below(v, x) <= k < v.len() implies v[k] >= x by {
                assert(v[k] == t[k - 1]);
            }
        } else {
            assert forall|k: int| 0 <= k < v.len() implies v[k] >= x by {
                if k > 0 {
                    assert(v[0] < v[k]);
                }
            }
        }
    }
}

/// Over matches in increasing order, `n` goes to the first match after the cursor, or
/// wraps to the first match when none is after it.
pub proof fn lemma_next_match(m: Seq<usize>, cursor: usize)
    requires
        strictly_increasing(m),
        m.len() > 0,
    ensures
        m.contains(next_match_cursor(m, cursor)),
        (exists|k: int| 0 <= k < m.len() && m[k] > cursor) ==> {
            &&& next_match_cursor(m, cursor) > cursor
            &&& forall|k: int| 0 <= k < m.len() && m[k] > cursor ==> next_match_cursor(m, cursor) <= m[k]
        },
        !(exists|k: int| 0 <= k < m.len() && m[k] > cursor) ==> next_match_cursor(m, cursor) == m[0],
{
    lemma_count_at_most_sorted(m, cursor);
    let p = count_at_most(m, cursor);
    if p < m.len() {
        assert(m[p as int] > cursor);
        assert forall|k: int| 0 <= k < m.len() && m[k] > cursor implies m[p as int] <= m[k] by {
            if k < p {
            } else if k > p {
                assert(m[p as int] < m[k]);
            }
        }
        assert(m.contains(m[p as int]));
    } else {
        assert(m.contains(m[0]));
    }
}

/// Over matches in increasing order, `N` goes to the last match before the cursor, or
/// wraps to the last match when none is before it.
pub proof fn lemma_prev_match(m: Seq<usize>, cursor: usize)
    requires
        strictly_increasing(m),
        m.len() > 0,
    ensures
        m.contains(prev_match_cursor(m, cursor)),
        (exists|k: int| 0 <= k < m.len() && m[k] < cursor) ==> {
            &&& prev_match_cursor(m, cursor) < cursor
            &&& forall|k: int| 0 <= k < m.len() && m[k] < cursor ==> m[k] <= prev_match_cursor(m, cursor)
        },
        !(exists|k: int| 0 <= k < m.len() && m[k] < cursor) ==> prev_match_cursor(m, cursor) == m.last(),
{
    lemma_count_below_sorted(m, cursor);
    let p = count_below(m, cursor);
    if p > 0 {
        assert(m[p - 1] < cursor);
        assert forall|k: int| 0 <= k < m.len() && #[trigger] m[k] < cursor implies m[k] <= m[p - 1] by {
            if k < p - 1 {
                assert(m[k] < m[p - 1]);
            }
        }
        assert(m.contains(m[p - 1]));
    } else {
        assert(m.contains(m.last()));
    }
}

/// Over file starts in increasing order, `H` goes to the first file start after the cursor,
/// and stays put when there is none.
pub proof fn lemma_next_file(starts: Seq<usize>, cursor: usize)
    requires
        strictly_increasing(starts),
    ensures
        (exists|k: int| 0 <= k < starts.len() && starts[k] > cursor) ==> {
            &&& starts.contains(next_file_cursor(starts, cursor))
            &&& next_file_cursor(starts, cursor) > cursor
            &&& forall|k: int| 0 <= k < starts.len() && starts[k] > cursor ==> next_file_cursor(starts, cursor) <= starts[k]
        },
        !(exists|k: int| 0 <= k < starts.len() && starts[k] > cursor) ==> next_file_cursor(starts, cursor) == cursor,
{
    lemma_count_at_most_sorted(starts, cursor);
    let p = count_at_most(starts, cursor);
    if p < starts.len() {
        assert(starts[p as int] > cursor);
        assert forall|k: int| 0 <= k < starts.len() && starts[k] > cursor implies starts[p as int] <= starts[k] by {
            if k > p {
                assert(starts[p as int] < starts[k]);
            }
        }
        assert(starts.contains(starts[p as int]));
    }
}

/// Over file starts in increasing order, `L` goes to the start of the file before the one
/// the cursor is in (exactly one file start lies after it, up to the cursor), to the first
/// file's start while the cursor is in the first file, and stays put when no file starts at
/// or before the cursor.
pub proof fn lemma_prev_file(starts: Seq<usize>, cursor: usize)
    requires
        strictly_increasing(starts),
    ensures
        (exists|k: int| 1 <= k < starts.len() && starts[k] <= cursor) ==> {
            let r = prev_file_cursor(starts, cursor);
            &&& starts.contains(r)
            &&& exists|m: int| 0 <= m < starts.len() && r < #[trigger] starts[m] <= cursor
                && forall|j: int| 0 <= j < starts.len() && r < #[trigger] starts[j] <= cursor ==> j == m
        },
        (exists|k: int| 0 <= k < starts.len() && starts[k] <= cursor)
            && !(exists|k: int| 1 <= k < starts.len() && starts[k] <= cursor)
            ==> prev_file_cursor(starts, cursor) == starts[0],
        !(exists|k: int| 0 <= k < starts.len() && starts[k] <= cursor) ==> prev_file_cursor(starts, cursor) == cursor,
{
    lemma_count_at_most_sorted(starts, cursor);
    let p = count_at_most(starts, cursor);
    if p >= 2 {
        let r = starts[p - 2];
        assert(starts.contains(r));
        assert(r < starts[p - 1] <= cursor);
        assert forall|j: int| 0 <= j < starts.len() && r < #[trigger] starts[j] <= cursor implies j == p - 1 by {
            if j < p - 2 {
                assert(starts[j] < starts[p - 2]);
            }
        }
    } else if p == 1 {
        assert(starts[0] <= cursor);
    } else {
        if starts.len() > 0 {
            assert(starts[0] > cursor);
            assert forall|k: int| 0 <= k < starts.len() implies starts[k] > cursor by {
                if k > 0 {
                    assert(starts[0] < starts[k]);
                }
            }
        }
    }
}

/// Whether the line at position `i` of `fl` is the first of its hunk.
pub open spec fn hunk_start(fl: Seq<FlatLine>, i: int) -> bool {
    0 <= i < fl.len() && (i == 0 || !same_hunk(fl[i - 1], fl[i].file_idx, fl[i].hunk_idx))
}

proof fn lemma_first_other_hunk(fl: Seq<FlatLine>, k: int, f: usize, h: usize)
    requires
        0 <= k,
    ensures
        match first_other_hunk(fl, k, f, h) {
            Some(i) => k <= i < fl.len() && !same_hunk(fl[i], f, h)
                && forall|j: int| k <= j < i ==> same_hunk(#[trigger] fl[j], f, h),
            None => forall|j: int| k <= j < fl.len() ==> same_hunk(#[trigger] fl[j], f, h),
        },
    decreases fl.len() - k,
{
    if k < fl.len() && same_hunk(fl[k], f, h) {
        lemma_first_other_hunk(fl, k + 1, f, h);
    }
}

/// `]` goes to the first hunk start after the cursor, and stays put when there is none.
pub proof fn lemma_next_hunk(fl: Seq<FlatLine>, cursor: usize)
    requires
        fl.len() <= usize::MAX,
    ensures
        (exists|j: int| cursor < j < fl.len() && hunk_start(fl, j)) ==> {
            let r = next_hunk_cursor(fl, cursor);
            &&& cursor < r
            &&& hunk_start(fl, r as int)
            &&& forall|j: int| cursor < j < r ==> !hunk_start(fl, j)
        },
        !(exists|j: int| cursor < j < fl.len() && hunk_start(fl, j)) ==> next_hunk_cursor(fl, cursor) == cursor,
{
    if cursor < fl.len() {
        let c = cursor as int;
        let f = fl[c].file_idx;
        let h = fl[c].hunk_idx;
        lemma_first_other_hunk(fl, c + 1, f, h);
        match first_other_hunk(fl, c + 1, f, h) {
            Some(i) => {
                assert(same_hunk(fl[i - 1], f, h)) by {
                    if i - 1 > c {
                        assert(same_hunk(fl[i - 1], f, h));
                    }
                }
                assert(hunk_start(fl, i));
                assert forall|j: int| c < j < i implies !hunk_start(fl, j) by {
                    assert(same_hunk(fl[j], f, h));
                    if j - 1 > c {
                        assert(same_hunk(fl[j - 1], f, h));
                    }
                }
            },
            None => {
                assert forall|j: int| c < j < fl.len() implies !hunk_start(fl, j) by {
                    assert(same_hunk(fl[j], f, h));
                    if j - 1 > c {
                        assert(same_hunk(fl[j - 1], f, h));
                    }
                }
            },
        }
    }
}

proof fn lemma_walk_back_in_hunk(fl: Seq<FlatLine>, i: int, f: usize, h: usize)
    requires
        0 <= i < fl.len(),
    ensures
        0 <= walk_back_in_hunk(fl, i, f, h) <= i,
        walk_back_in_hunk(fl, i, f, h) == 0 || !same_hunk(fl[walk_back_in_hunk(fl, i, f, h)], f, h),
        forall|j: int| walk_back_in_hunk(fl, i, f, h) < j <= i ==> same_hunk(#[trigger] fl[j], f, h),
    decreases i,
{
    if i > 0 && same_hunk(fl[i], f, h) {
        lemma_walk_back_in_hunk(fl, i - 1, f, h);
    }
}

proof fn lemma_hunk_start_at_or_below(fl: Seq<FlatLine>, i: int, f: usize, h: usize)
    requires
        -1 <= i < fl.len(),
    ensures
        0 <= hunk_start_at_or_below(fl, i, f, h) <= i + 1,
        hunk_start_at_or_below(fl, i, f, h) == 0 || !same_hunk(fl[hunk_start_at_or_below(fl, i, f, h) - 1], f, h),
        forall|j: int| hunk_start_at_or_below(fl, i, f, h) <= j <= i ==> same_hunk(#[trigger] fl[j], f, h),
    decreases i + 1,
{
    if i >= 0 && same_hunk(fl[i], f, h) {
        lemma_hunk_start_at_or_below(fl, i - 1, f, h);
    }
}

/// `[` goes to the start of the hunk before the cursor's hunk: a hunk start below the
/// cursor with exactly one hunk start after it up to the cursor, or the first line while
/// the cursor is in the first hunk. On the first line, or off the view, it stays put.
pub proof fn lemma_prev_hunk(fl: Seq<FlatLine>, cursor: usize)
    ensures
        0 < cursor < fl.len() ==> {
            let r = prev_hunk_cursor(fl, cursor) as int;
            &&& r < cursor
            &&& hunk_start(fl, r)
            &&& forall|a: int, b: int| r < a <= cursor && r < b <= cursor && hunk_start(fl, a) && hunk_start(fl, b) ==> a == b
            &&& r > 0 ==> exists|a: int| r < a <= cursor && hunk_start(fl, a)
        },
        !(0 < cursor < fl.len()) ==> prev_hunk_cursor(fl, cursor) == cursor,
{
    if 0 < cursor < fl.len() {
        let c = cursor as int;
        let f = fl[c].file_idx;
        let h = fl[c].hunk_idx;
        lemma_walk_back_in_hunk(fl, c - 1, f, h);
        let pe = walk_back_in_hunk(fl, c - 1, f, h);
        let tf = fl[pe].file_idx;
        let th = fl[pe].hunk_idx;
        lemma_hunk_start_at_or_below(fl, pe, tf, th);
        let r = hunk_start_at_or_below(fl, pe, tf, th);
        assert(r <= pe) by {
            if r == pe + 1 {
                assert(same_hunk(fl[pe], tf, th));
            }
        }
        assert(same_hunk(fl[r], tf, th));
        assert(hunk_start(fl, r));
        assert forall|a: int| r < a <= c && hunk_start(fl, a) implies a == pe + 1 by {
            if a <= pe {
                assert(same_hunk(fl[a], tf, th));
                assert(same_hunk(fl[a - 1], tf, th));
            } else if a > pe + 1 {
                assert(same_hunk(fl[a], f, h));
                assert(same_hunk(fl[a - 1], f, h));
                if a == c {
                    assert(same_hunk(fl[c], f, h));
                }
            }
        }
        if r > 0 {
            assert(pe > 0);
            assert(!same_hunk(fl[pe], f, h));
            assert(same_hunk(fl[pe + 1], f, h));
            assert(hunk_start(fl, pe + 1));
        }
    }
}

/// The case-insensitive text of `q` occurs in `text` at some position, not only at its start.
pub open spec fn occurs_somewhere(text: Seq<char>, q: Seq<char>) -> bool {
    exists|p: int| 0 <= p && p + q.len() <= text.len() && #[trigger] text.subrange(p, p + q.len()) == q
}

/// The search results are exactly the lines of the view whose lowercased text holds the
/// lowercased query at some position, in increasing order; an empty query finds nothing.
pub proof fn lemma_search_results(files: Seq<DiffFile>, flat: Seq<FlatLine>, query: Seq<char>)
    requires
        flat.len() <= usize::MAX,
    ensures
        strictly_increasing(search_results(files, flat, query)),
        forall|k: int| 0 <= k < search_results(files, flat, query).len() ==> #[trigger] search_results(files, flat, query)[k] < flat.len(),
        query.len() > 0 ==> forall|i: int| 0 <= i < flat.len() ==>
            (search_results(files, flat, query).contains(i as usize)
                <==> (#[trigger] flat_line_at(files, flat, i) matches Some(l)
                    && occurs_somewhere(lowercase(l.content@), lowercase(query)))),
        query.len() == 0 ==> search_results(files, flat, query).len() == 0,
{
    if query.len() > 0 {
        let q = lowercase(query);
        lemma_matches_below_exact(files, flat, q, flat.len());
        assert forall|i: int| 0 <= i < flat.len() implies
            (line_matches(files, flat, i, q) <==> (#[trigger] flat_line_at(files, flat, i) matches Some(l)
                && occurs_somewhere(lowercase(l.content@), q))) by {
            if let Some(l) = flat_line_at(files, flat, i) {
                let t = lowercase(l.content@);
                if contains_seq(t, q) {
                    let p = choose|p: int| occurs_at(t, q, p);
                    assert(t.subrange(p, p + q.len()) == q);
                }
                if occurs_somewhere(t, q) {
                    let p = choose|p: int| 0 <= p && p + q.len() <= t.len() && #[trigger] t.subrange(p, p + q.len()) == q;
                    assert(occurs_at(t, q, p));
                }
            }
        }
    }
}

proof fn lemma_matches_below_exact(files: Seq<DiffFile>, flat: Seq<FlatLine>, q: Seq<char>, n: nat)
    requires
        n <= usize::MAX,
    ensures
        strictly_increasing(matches_below(files, flat, q, n)),
        forall|k: int| 0 <= k < matches_below(files, flat, q, n).len() ==> matches_below(files, flat, q, n)[k] < n,
        forall|i: int| 0 <= i < n ==>
            (matches_below(files, flat, q, n).contains(i as usize) <==> line_matches(files, flat, i, q)),
    decreases n,
{
    if n > 0 {
        lemma_matches_below_exact(files, flat, q, (n - 1) as nat);
        let prev = matches_below(files, flat, q, (n - 1) as nat);
        let cur = matches_below(files, flat, q, n);
        if line_matches(files, flat, n - 1, q) {
            assert(cur =~= prev.push((n - 1) as usize));
        } else {
            assert(cur =~= prev);
        }
        assert forall|k: int| 0 <= k < cur.len() implies cur[k] < n by {
            if k < prev.len() {
                assert(cur[k] == prev[k]);
            }
        }
        assert forall|i: int, j: int| 0 <= i < j < cur.len() implies cur[i] < cur[j] by {
            assert(cur[i] == prev[i]);
            if j < prev.len() {
                assert(cur[j] == prev[j]);
            }
        }
        assert forall|i: int| 0 <= i < n implies
            (cur.contains(i as usize) <==> line_matches(files, flat, i, q)) by {
            if i < n - 1 {
                if cur.contains(i as usize) {
                    let k = choose|k: int| 0 <= k < cur.len() && cur[k] == i as usize;
                    if k < prev.len() {
                        assert(prev[k] == cur[k]);
                    }
                }
                if prev.contains(i as usize) {
                    let k = choose|k: int| 0 <= k < prev.len() && prev[k] == i as usize;
                    assert(cur[k] == prev[k]);
                }
            } else {
                if line_matches(files, flat, i, q) {
                    assert(cur[prev.len() as int] == i as usize);
                } else {
                    if cur.contains(i as usize) {
                        let k = choose|k: int| 0 <= k < cur.len() && cur[k] == i as usize;
                        assert(prev[k] < n - 1);
                    }
                }
            }
        }
    }
}

proof fn lemma_last_in_file(flat: Seq<FlatLine>, start: int, i: int, f: usize)
    requires
        0 <= start < flat.len(),
        flat[start].file_idx == f,
    ensures
        start <= last_in_file(flat, start, i, f) < flat.len(),
        last_in_file(flat, start, i, f) <= i || last_in_file(flat, start, i, f) == start,
        flat[last_in_file(flat, start, i, f)].file_idx == f,
        forall|j: int| last_in_file(flat, start, i, f) < j <= i && j < flat.len() ==> #[trigger] flat[j].file_idx != f,
    decreases i - start + 1,
{
    if i >= start && !(0 <= i < flat.len() && flat[i].file_idx == f) {
        lemma_last_in_file(flat, start, i - 1, f);
    }
}

/// A new annotation starts at the selection's first line and ends at the last line of the
/// selection that is in the first line's file: it never runs past the end of that file, and
/// no line of the selection after its end (and in the view) is in that file, so a selection
/// within one file is kept whole, across hunks.
pub proof fn lemma_new_annotation_in_one_file(files: Seq<DiffFile>, flat: Seq<FlatLine>, s: UiState)
    requires
        !is_blank(s.comment_buf),
        !(s.editing_annotation is Some && s.editing_annotation->0 < s.annotations.len()),
        submit_comment(files, flat, s).annotations.len() > s.annotations.len(),
    ensures
        ({
            let a = submit_comment(files, flat, s).annotations.last();
            let range = match s.comment_selection {
                Some(r) => r,
                None => (s.cursor, s.cursor),
            };
            &&& a.flat_start == range.0
            &&& a.flat_start <= a.flat_end < flat.len()
            &&& (a.flat_end <= range.1 || a.flat_end == a.flat_start)
            &&& flat[a.flat_end as int].file_idx == flat[a.flat_start as int].file_idx
            &&& forall|j: int| a.flat_end < j <= range.1 && j < flat.len()
                ==> #[trigger] flat[j].file_idx != flat[a.flat_start as int].file_idx
            &&& a.comment == s.comment_buf
            &&& submit_comment(files, flat, s).comment_buf.len() == 0
        }),
{
    let range = match s.comment_selection {
        Some(r) => r,
        None => (s.cursor, s.cursor),
    };
    lemma_last_in_file(flat, range.0 as int, range.1 as int, flat[range.0 as int].file_idx);
}

/// The lines that `c` comments on: in visual-line mode, from the smaller to the larger of
/// the anchor and the cursor; otherwise the cursor line.
pub open spec fn comment_target(mode: Mode, cursor: usize) -> (usize, usize) {
    match mode {
        Mode::VisualLine { anchor } => if anchor <= cursor { (anchor, cursor) } else { (cursor, anchor) },
        _ => (cursor, cursor),
    }
}

/// Whether annotation `a` covers exactly the lines `r`.
pub open spec fn covers_exactly(a: AnnotationView, r: (usize, usize)) -> bool {
    a.flat_start == r.0 && a.flat_end == r.1
}

proof fn lemma_find_exact_first(anns: Seq<AnnotationView>, start: usize, end: usize, k: int)
    requires
        0 <= k,
    ensures
        forall|i: int| k <= i < anns.len() && covers_exactly(anns[i], (start, end))
            && (forall|j: int| k <= j < i ==> !covers_exactly(#[trigger] anns[j], (start, end)))
            ==> find_exact_annotation(anns, start, end, k) == Some(i),
        (forall|j: int| k <= j < anns.len() ==> !covers_exactly(#[trigger] anns[j], (start, end)))
            ==> find_exact_annotation(anns, start, end, k) is None,
    decreases anns.len() - k,
{
    if k < anns.len() {
        lemma_find_exact_first(anns, start, end, k + 1);
        assert forall|i: int| k <= i < anns.len() && covers_exactly(anns[i], (start, end))
            && (forall|j: int| k <= j < i ==> !covers_exactly(#[trigger] anns[j], (start, end)))
            implies find_exact_annotation(anns, start, end, k) == Some(i) by {
            if i > k {
                assert(!covers_exactly(anns[k], (start, end)));
            }
        }
        if forall|j: int| k <= j < anns.len() ==> !covers_exactly(#[trigger] anns[j], (start, end)) {
            assert(!covers_exactly(anns[k], (start, end)));
        }
    }
}

/// `c` opens the comment box on its target lines (the visual selection, or the cursor
/// line): on the first annotation that covers exactly those lines, with that annotation's
/// comment to edit; when there is none, on a new, empty comment.
pub proof fn lemma_begin_comment_opens(s: UiState)
    ensures
        ({
            let r = comment_target(s.mode, s.cursor);
            let t = begin_comment(s);
            &&& t.mode == Mode::CommentInsert
            &&& t.annotations == s.annotations
            &&& forall|i: int| 0 <= i < s.annotations.len() && covers_exactly(s.annotations[i], r)
                && (forall|j: int| 0 <= j < i ==> !covers_exactly(#[trigger] s.annotations[j], r)) ==> {
                &&& t.editing_annotation == Some(i as usize)
                &&& t.comment_buf == s.annotations[i].comment
                &&& t.comment_selection == Some(r)
            }
            &&& (forall|j: int| 0 <= j < s.annotations.len() ==> !covers_exactly(#[trigger] s.annotations[j], r)) ==> {
                &&& t.editing_annotation is None
                &&& t.comment_buf.len() == 0
                &&& t.comment_selection == Some(r)
            }
        }),
{
    let r = comment_target(s.mode, s.cursor);
    lemma_find_exact_first(s.annotations, r.0, r.1, 0);
    lemma_find_exact_in_range(s.annotations, r.0, r.1, 0);
}

/// Opening the comment box on the exact lines of an annotation (the visual selection, or
/// the cursor line) and submitting a text that is not blank changes that annotation's
/// comment in place; submitting a blank text deletes it.
pub proof fn lemma_edit_annotation_in_place(files: Seq<DiffFile>, flat: Seq<FlatLine>, s: UiState, idx: int, text: Seq<char>)
    requires
        s.annotations.len() <= usize::MAX,
        0 <= idx < s.annotations.len(),
        covers_exactly(s.annotations[idx], comment_target(s.mode, s.cursor)),
        forall|j: int| 0 <= j < idx ==> !covers_exactly(#[trigger] s.annotations[j], comment_target(s.mode, s.cursor)),
    ensures
        ({
            let t = UiState { comment_buf: text, ..begin_comment(s) };
            let u = submit_comment(files, flat, t);
            &&& !is_blank(text) ==> u.annotations == s.annotations.update(idx, AnnotationView { comment: text, ..s.annotations[idx] })
            &&& is_blank(text) ==> u.annotations == s.annotations.remove(idx)
            &&& u.editing_annotation is None
        }),
{
    lemma_begin_comment_opens(s);
    let t = UiState { comment_buf: text, ..begin_comment(s) };
    assert(t.editing_annotation == Some(idx as usize));
    assert(t.annotations == s.annotations);
}

/// Ctrl-u moves the cursor half a viewport up, or to the top line when it is less than
/// half a viewport down (and onto the last line when it was past it).
pub proof fn lemma_half_page_up(
    files: Seq<DiffFile>,
    flat: Seq<FlatLine>,
    starts: Seq<usize>,
    s: UiState,
    viewport_height: usize,
    shift: bool,
)
    requires
        s.pending_keys.len() == 0,
        flat.len() <= usize::MAX,
    ensures
        ({
            let t = nav_step(files, flat, starts, s, KeyPress { code: KeyCode::Char('u'), ctrl: true, shift }, viewport_height);
            let half = viewport_height / 2;
            let up: int = if s.cursor >= half { s.cursor - half } else { 0 };
            let last: int = if flat.len() == 0 { 0 } else { flat.len() - 1 };
            &&& t.cursor == if up <= last { up } else { last }
            &&& t.cursor <= s.cursor
            &&& s.cursor >= half && s.cursor - half <= last ==> s.cursor - t.cursor == half
        }),
{
}

/// Esc in the comment box keeps the text typed so far.
pub proof fn lemma_escape_keeps_comment(files: Seq<DiffFile>, flat: Seq<FlatLine>, s: UiState, key: KeyPress)
    requires
        key.code == KeyCode::Esc,
    ensures
        comment_insert_step(files, flat, s, key).comment_buf == s.comment_buf,
        comment_insert_step(files, flat, s, key).mode == (if s.comment_buf.len() == 0 { Mode::Normal } else { Mode::CommentNormal }),
{
}

/// The pane list never offers the pane it runs in.
pub proof fn lemma_panes_exclude_self(lines: Seq<Seq<char>>, self_id: Seq<char>)
    ensures
        forall|k: int| 0 <= k < panes_of(lines, Some(self_id)).len() ==> (#[trigger] panes_of(lines, Some(self_id))[k]).id != self_id,
    decreases lines.len(),
{
    if lines.len() > 0 {
        lemma_panes_exclude_self(lines.drop_last(), self_id);
        let prev = panes_of(lines.drop_last(), Some(self_id));
        let cur = panes_of(lines, Some(self_id));
        assert forall|k: int| 0 <= k < cur.len() implies (#[trigger] cur[k]).id != self_id by {
            if k < prev.len() {
                assert(cur[k] == prev[k]);
            }
        }
    }
}


/// Without comment rows a scan counts no more rows, and remembers the same headers.
proof fn lemma_scan_without_comments(flat: Seq<FlatLine>, anns: Seq<AnnotationView>, show: bool, to: usize, from: int, n: nat)
    ensures
        row_scan(flat, anns, false, to, from, n).rows <= row_scan(flat, anns, show, to, from, n).rows,
        row_scan(flat, anns, false, to, from, n).last_file == row_scan(flat, anns, show, to, from, n).last_file,
        row_scan(flat, anns, false, to, from, n).last_hunk == row_scan(flat, anns, show, to, from, n).last_hunk,
    decreases n,
{
    if n > 0 {
        lemma_scan_without_comments(flat, anns, show, to, from, (n - 1) as nat);
    }
}

proof fn lemma_layout_keeps_prefix(
    files: Seq<DiffFile>,
    flat: Seq<FlatLine>,
    height: usize,
    i: int,
    acc: Seq<RowKind>,
    last_file: Option<usize>,
    last_hunk: Option<(usize, usize)>,
)
    ensures
        layout_rows(files, flat, height, i, acc, last_file, last_hunk).len() >= acc.len(),
        layout_rows(files, flat, height, i, acc, last_file, last_hunk).subrange(0, acc.len() as int) == acc,
    decreases flat.len() - i,
{
    let r = layout_rows(files, flat, height, i, acc, last_file, last_hunk);
    if !(i < 0 || i >= flat.len() || acc.len() >= height || flat_line_at(files, flat, i) is None) {
        let fl = flat[i];
        let new_file = last_file != Some(fl.file_idx);
        let acc1 = if new_file { acc.push(RowKind::FileHeader { file_idx: fl.file_idx }) } else { acc };
        let hunk1 = if new_file { None } else { last_hunk };
        let new_hunk = hunk1 != Some((fl.file_idx, fl.hunk_idx)) && fl.line_idx == 0;
        if !(new_hunk && acc1.len() >= height) {
            let acc2 = if new_hunk {
                acc1.push(RowKind::HunkHeader { file_idx: fl.file_idx, hunk_idx: fl.hunk_idx })
            } else {
                acc1
            };
            let hunk2 = if new_hunk { Some((fl.file_idx, fl.hunk_idx)) } else { hunk1 };
            if acc2.len() < height {
                let acc3 = acc2.push(RowKind::Line { flat_idx: i as usize });
                lemma_layout_keeps_prefix(files, flat, height, i + 1, acc3, Some(fl.file_idx), hunk2);
                assert(r.subrange(0, acc3.len() as int).subrange(0, acc.len() as int) =~= r.subrange(0, acc.len() as int));
                assert(acc3.subrange(0, acc.len() as int) =~= acc);
            } else {
                assert(acc2.subrange(0, acc.len() as int) =~= acc);
            }
        } else {
            assert(acc1.subrange(0, acc.len() as int) =~= acc);
        }
    } else {
        assert(acc.subrange(0, acc.len() as int) =~= acc);
    }
}

/// The panels draw the rows that a scan without comments counts: while those rows up to
/// line `target` fit in the viewport, the drawing reaches line `target`.
proof fn lemma_layout_reaches(
    files: Seq<DiffFile>,
    flat: Seq<FlatLine>,
    anns: Seq<AnnotationView>,
    height: usize,
    from: int,
    target: int,
    i: int,
    acc: Seq<RowKind>,
)
    requires
        0 <= from <= i <= target < flat.len(),
        forall|k: int| from <= k <= target ==> flat_line_at(files, flat, k) is Some,
        ({
            let st = row_scan(flat, anns, false, target as usize, from, (i - from) as nat);
            acc.len() == st.rows
        }),
        row_scan(flat, anns, false, target as usize, from, (target - from + 1) as nat).rows <= height,
        target <= usize::MAX,
    ensures
        ({
            let st = row_scan(flat, anns, false, target as usize, from, (i - from) as nat);
            layout_rows(files, flat, height, i, acc, st.last_file, st.last_hunk).contains(RowKind::Line { flat_idx: target as usize })
        }),
    decreases target - i,
{
    let to = target as usize;
    let st = row_scan(flat, anns, false, to, from, (i - from) as nat);
    let st1 = row_scan(flat, anns, false, to, from, (i - from + 1) as nat);
    lemma_scan_rows_grow(flat, anns, false, to, from, (i - from + 1) as nat, (target - from + 1) as nat);
    assert(st1 == scan_step(st, flat[i], 0));
    let fl = flat[i];
    let new_file = st.last_file != Some(fl.file_idx);
    let acc1 = if new_file { acc.push(RowKind::FileHeader { file_idx: fl.file_idx }) } else { acc };
    let hunk1 = if new_file { None } else { st.last_hunk };
    let new_hunk = hunk1 != Some((fl.file_idx, fl.hunk_idx)) && fl.line_idx == 0;
    let acc2 = if new_hunk {
        acc1.push(RowKind::HunkHeader { file_idx: fl.file_idx, hunk_idx: fl.hunk_idx })
    } else {
        acc1
    };
    let hunk2 = if new_hunk { Some((fl.file_idx, fl.hunk_idx)) } else { hunk1 };
    let acc3 = acc2.push(RowKind::Line { flat_idx: i as usize });
    assert(acc3.len() == st1.rows);
    assert(st1.last_file == Some(fl.file_idx) && st1.last_hunk == hunk2);
    assert(layout_rows(files, flat, height, i, acc, st.last_file, st.last_hunk)
        == layout_rows(files, flat, height, i + 1, acc3, Some(fl.file_idx), hunk2));
    if i == target {
        lemma_layout_keeps_prefix(files, flat, height, i + 1, acc3, Some(fl.file_idx), hunk2);
        let r = layout_rows(files, flat, height, i + 1, acc3, Some(fl.file_idx), hunk2);
        assert(r.subrange(0, acc3.len() as int)[acc3.len() - 1] == r[acc3.len() - 1]);
        assert(r[acc3.len() - 1] == RowKind::Line { flat_idx: target as usize });
    } else {
        lemma_layout_reaches(files, flat, anns, height, from, target, i + 1, acc3);
    }
}

/// After `ensure_visible`, the diff panels draw the cursor line: the scroll offset it
/// leaves is the cursor itself or one from which the rows up to the cursor fit, and a
/// viewport of three rows holds a line with its file and hunk headers.
pub proof fn lemma_cursor_line_drawn(app: App, viewport_height: usize)
    requires
        app.cursor < app.flat_lines@.len(),
        forall|k: int| 0 <= k < app.flat_lines@.len() ==> flat_line_at(app.files@, app.flat_lines@, k) is Some,
        3 <= viewport_height < usize::MAX,
        app.scroll_offset <= app.cursor,
        app.scroll_offset == app.cursor || !overflows(app, app.scroll_offset, app.cursor, viewport_height),
    ensures
        layout_rows(app.files@, app.flat_lines@, viewport_height, app.scroll_offset as int, seq![], None, None)
            .contains(RowKind::Line { flat_idx: app.cursor }),
{
    let flat = app.flat_lines@;
    let anns = annotation_views(app.annotations@);
    let from = app.scroll_offset as int;
    let target = app.cursor as int;
    let n = (target - from + 1) as nat;
    assert(scan_end(flat.len(), app.cursor) == target);
    lemma_scan_without_comments(flat, anns, app.show_comments, app.cursor, from, n);
    if app.scroll_offset == app.cursor {
        assert(row_scan(flat, anns, false, app.cursor, from, 0) == scan_start());
        assert(comment_rows(anns, false, app.cursor, app.cursor) == 0);
        assert(row_scan(flat, anns, false, app.cursor, from, 1).rows <= 3);
    } else {
        assert(rows_between(flat, anns, app.show_comments, app.scroll_offset, app.cursor)
            == row_scan(flat, anns, app.show_comments, app.cursor, from, n).rows);
    }
    assert(row_scan(flat, anns, false, app.cursor, from, 0) == scan_start());
    lemma_layout_reaches(app.files@, flat, anns, viewport_height, from, target, from, seq![]);
}

} // verus!
