use vstd::prelude::*;

use crate::annotation::{Annotation, AnnotationView};
use crate::diff_model::{DiffFile, DiffLine, Hunk, LineType, hunks_count_kind};
use crate::mode::Mode;

verus! {

/// A position in the flattened view: one line of one hunk of one file.
#[derive(Debug, Clone, Copy)]
pub struct FlatLine {
    pub file_idx: usize,
    pub hunk_idx: usize,
    pub line_idx: usize,
}

/// How the old and the new side are laid out.
pub enum ViewLayout {
    SideBySide,
    Unified,
}

/// The side of a side-by-side view that has the focus.
#[derive(Debug, Clone, Copy, PartialEq, Eq, Structural)]
pub enum Side {
    Left,
    Right,
}

/// The state of a commenting session over a fixed diff.
pub struct App {
    pub files: Vec<DiffFile>,
    pub flat_lines: Vec<FlatLine>,
    pub file_starts: Vec<usize>,
    pub line_counts: Vec<(usize, usize)>,
    pub cursor: usize,
    pub scroll_offset: usize,
    pub mode: Mode,
    pub focus_side: Side,
    pub annotations: Vec<Annotation>,
    pub layout: ViewLayout,
    pub should_quit: bool,
    pub comment_buf: String,
    pub search_query: String,
    pub search_matches: Vec<usize>,
    pub pending_keys: Vec<char>,
    pub comment_selection: Option<(usize, usize)>,
    pub editing_annotation: Option<usize>,
    pub show_file_list: bool,
    pub show_comments: bool,
    pub focus_mode: bool,
}

/// The part of a session that keys change, with strings as character sequences.
#[verifier::ext_equal]
pub struct UiState {
    pub cursor: usize,
    pub scroll_offset: usize,
    pub mode: Mode,
    pub focus_side: Side,
    pub annotations: Seq<AnnotationView>,
    pub layout: ViewLayout,
    pub should_quit: bool,
    pub comment_buf: Seq<char>,
    pub search_query: Seq<char>,
    pub search_matches: Seq<usize>,
    pub pending_keys: Seq<char>,
    pub comment_selection: Option<(usize, usize)>,
    pub editing_annotation: Option<usize>,
    pub show_file_list: bool,
    pub show_comments: bool,
    pub focus_mode: bool,
}

pub open spec fn annotation_views(anns: Seq<Annotation>) -> Seq<AnnotationView> {
    anns.map_values(|a: Annotation| a@)
}

/// The lines of hunk `hi` of file `fi`, which has `n` lines, in the flattened view.
pub open spec fn hunk_flat(fi: nat, hi: nat, n: nat) -> Seq<FlatLine> {
    Seq::new(n, |li: int| FlatLine { file_idx: fi as usize, hunk_idx: hi as usize, line_idx: li as usize })
}

/// The lines of file `fi`, whose hunks are `hunks`, in the flattened view.
pub open spec fn file_flat(fi: nat, hunks: Seq<Hunk>) -> Seq<FlatLine>
    decreases hunks.len(),
{
    if hunks.len() == 0 {
        seq![]
    } else {
        file_flat(fi, hunks.drop_last()) + hunk_flat(fi, (hunks.len() - 1) as nat, hunks.last().lines@.len())
    }
}

/// Every line of every hunk of every file, in order: the flattened view.
pub open spec fn spec_flat_lines(files: Seq<DiffFile>) -> Seq<FlatLine>
    decreases files.len(),
{
    if files.len() == 0 {
        seq![]
    } else {
        spec_flat_lines(files.drop_last()) + file_flat((files.len() - 1) as nat, files.last().hunks@)
    }
}

/// The positions in `fl` where a new file begins.
pub open spec fn spec_file_starts(fl: Seq<FlatLine>) -> Seq<usize>
    decreases fl.len(),
{
    if fl.len() == 0 {
        seq![]
    } else {
        let prev = spec_file_starts(fl.drop_last());
        if fl.len() == 1 || fl[fl.len() - 2].file_idx != fl.last().file_idx {
            prev.push((fl.len() - 1) as usize)
        } else {
            prev
        }
    }
}

/// The diff line that a flat position names, if it names one.
pub open spec fn line_at(files: Seq<DiffFile>, fl: FlatLine) -> Option<DiffLine> {
    if fl.file_idx < files.len() && fl.hunk_idx < files[fl.file_idx as int].hunks@.len()
        && fl.line_idx < files[fl.file_idx as int].hunks@[fl.hunk_idx as int].lines@.len() {
        Some(files[fl.file_idx as int].hunks@[fl.hunk_idx as int].lines@[fl.line_idx as int])
    } else {
        None
    }
}

/// The diff line at flat index `i`, if there is one.
pub open spec fn flat_line_at(files: Seq<DiffFile>, flat: Seq<FlatLine>, i: int) -> Option<DiffLine> {
    if 0 <= i < flat.len() {
        line_at(files, flat[i])
    } else {
        None
    }
}

/// `n.saturating_sub(1)`: the last index of a sequence of length `n`, or 0.
pub open spec fn last_index(n: nat) -> usize {
    if n == 0 {
        0
    } else {
        (n - 1) as usize
    }
}

pub open spec fn min_usize(a: usize, b: usize) -> usize {
    if a <= b { a } else { b }
}

pub open spec fn max_usize(a: usize, b: usize) -> usize {
    if a <= b { b } else { a }
}

/// The state in which a session starts.
pub open spec fn initial_ui() -> UiState {
    UiState {
        cursor: 0,
        scroll_offset: 0,
        mode: Mode::Normal,
        focus_side: Side::Right,
        annotations: seq![],
        layout: ViewLayout::SideBySide,
        should_quit: false,
        comment_buf: seq![],
        search_query: seq![],
        search_matches: seq![],
        pending_keys: seq![],
        comment_selection: None,
        editing_annotation: None,
        show_file_list: true,
        show_comments: false,
        focus_mode: false,
    }
}

/// `(start, end)` of the visual selection between `anchor` and `cursor`.
pub open spec fn spec_selection(mode: Mode, cursor: usize) -> Option<(usize, usize)> {
    match mode {
        Mode::VisualLine { anchor } => Some((min_usize(anchor, cursor), max_usize(anchor, cursor))),
        _ => None,
    }
}

impl App {
    /// The state that keys change.
    pub open spec fn ui(&self) -> UiState {
        UiState {
            cursor: self.cursor,
            scroll_offset: self.scroll_offset,
            mode: self.mode,
            focus_side: self.focus_side,
            annotations: annotation_views(self.annotations@),
            layout: self.layout,
            should_quit: self.should_quit,
            comment_buf: self.comment_buf@,
            search_query: self.search_query@,
            search_matches: self.search_matches@,
            pending_keys: self.pending_keys@,
            comment_selection: self.comment_selection,
            editing_annotation: self.editing_annotation,
            show_file_list: self.show_file_list,
            show_comments: self.show_comments,
            focus_mode: self.focus_mode,
        }
    }

    /// The flat index, the file starts and the line counts are those of the files.
    pub open spec fn wf(&self) -> bool {
        &&& self.flat_lines@ == spec_flat_lines(self.files@)
        &&& self.file_starts@ == spec_file_starts(self.flat_lines@)
        &&& self.line_counts@.len() == self.files@.len()
        &&& forall|i: int|
            0 <= i < self.files@.len() ==> #[trigger] self.line_counts@[i] == (
                hunks_count_kind(self.files@[i].hunks@, LineType::Addition) as usize,
                hunks_count_kind(self.files@[i].hunks@, LineType::Deletion) as usize,
            )
    }

    /// Opens a session over `files`, with the cursor on the first line.
    pub fn new(files: Vec<DiffFile>) -> (r: Self)
        requires
            forall|i: int| 0 <= i < files@.len() ==> (#[trigger] files@[i]).line_total() <= usize::MAX,
        ensures
            r.files@ == files@,
            r.wf(),
            r.ui() == initial_ui(),
    {
        let flat_lines = build_flat_lines(&files);
        let file_starts = build_file_starts(&flat_lines);
        let mut line_counts: Vec<(usize, usize)> = Vec::new();
        let mut i: usize = 0;
        while i < files.len()
            invariant
                i <= files@.len(),
                line_counts@.len() == i,
                forall|j: int| 0 <= j < files@.len() ==> (#[trigger] files@[j]).line_total() <= usize::MAX,
                forall|j: int|
                    0 <= j < i ==> #[trigger] line_counts@[j] == (
                        hunks_count_kind(files@[j].hunks@, LineType::Addition) as usize,
                        hunks_count_kind(files@[j].hunks@, LineType::Deletion) as usize,
                    ),
            decreases files@.len() - i,
        {
            let c = files[i].line_counts();
            line_counts.push(c);
            i = i + 1;
        }
        let r = App {
            files,
            flat_lines,
            file_starts,
            line_counts,
            cursor: 0,
            scroll_offset: 0,
            mode: Mode::Normal,
            focus_side: Side::Right,
            annotations: Vec::new(),
            layout: ViewLayout::SideBySide,
            should_quit: false,
            comment_buf: String::new(),
            search_query: String::new(),
            search_matches: Vec::new(),
            pending_keys: Vec::new(),
            comment_selection: None,
            editing_annotation: None,
            show_file_list: true,
            show_comments: false,
            focus_mode: false,
        };
        proof {
            assert(annotation_views(r.annotations@) =~= seq![]);
            assert(r.ui() =~= initial_ui());
        }
        r
    }

    /// The diff line at flat index `flat_idx`, if there is one.
    pub fn get_line(&self, flat_idx: usize) -> (r: Option<&DiffLine>)
        ensures
            r is Some <==> flat_line_at(self.files@, self.flat_lines@, flat_idx as int) is Some,
            r matches Some(l) ==> *l == flat_line_at(self.files@, self.flat_lines@, flat_idx as int)->0,
    {
        if flat_idx >= self.flat_lines.len() {
            return None;
        }
        let fl = self.flat_lines[flat_idx];
        if fl.file_idx >= self.files.len() {
            return None;
        }
        let file = &self.files[fl.file_idx];
        if fl.hunk_idx >= file.hunks.len() {
            return None;
        }
        let hunk = &file.hunks[fl.hunk_idx];
        if fl.line_idx >= hunk.lines.len() {
            return None;
        }
        Some(&hunk.lines[fl.line_idx])
    }

    /// The file that the cursor is in, if the cursor is on a line.
    pub fn active_file_idx(&self) -> (r: Option<usize>)
        ensures
            r == (if self.cursor < self.flat_lines@.len() {
                Some(self.flat_lines@[self.cursor as int].file_idx)
            } else {
                None
            }),
    {
        if self.cursor < self.flat_lines.len() {
            Some(self.flat_lines[self.cursor].file_idx)
        } else {
            None
        }
    }

    /// The visual selection, from its first to its last line.
    pub fn selection_range(&self) -> (r: Option<(usize, usize)>)
        ensures
            r == spec_selection(self.mode, self.cursor),
    {
        match self.mode {
            Mode::VisualLine { anchor } => {
                let start = if anchor <= self.cursor { anchor } else { self.cursor };
                let end = if anchor <= self.cursor { self.cursor } else { anchor };
                Some((start, end))
            },
            _ => None,
        }
    }

    /// The number of lines in the flattened view.
    pub fn total_lines(&self) -> (r: usize)
        ensures
            r == self.flat_lines@.len(),
    {
        self.flat_lines.len()
    }

    /// The flat position at `flat_idx`, if there is one.
    pub fn get_flat(&self, flat_idx: usize) -> (r: Option<FlatLine>)
        ensures
            r == (if flat_idx < self.flat_lines@.len() {
                Some(self.flat_lines@[flat_idx as int])
            } else {
                None
            }),
    {
        if flat_idx < self.flat_lines.len() {
            Some(self.flat_lines[flat_idx])
        } else {
            None
        }
    }

    /// The file that flat index `flat_idx` belongs to, if there is one.
    pub fn file_for_line(&self, flat_idx: usize) -> (r: Option<&DiffFile>)
        ensures
            r is Some <==> (flat_idx < self.flat_lines@.len()
                && self.flat_lines@[flat_idx as int].file_idx < self.files@.len()),
            r matches Some(f) ==> *f == self.files@[self.flat_lines@[flat_idx as int].file_idx as int],
    {
        if flat_idx >= self.flat_lines.len() {
            return None;
        }
        let fi = self.flat_lines[flat_idx].file_idx;
        if fi < self.files.len() {
            Some(&self.files[fi])
        } else {
            None
        }
    }
}

/// Flattens the files into the list of their lines, file by file and hunk by hunk.
pub fn build_flat_lines(files: &[DiffFile]) -> (r: Vec<FlatLine>)
    ensures
        r@ == spec_flat_lines(files@),
{
    let mut flat: Vec<FlatLine> = Vec::new();
    let mut fi: usize = 0;
    while fi < files.len()
        invariant
            fi <= files@.len(),
            flat@ == spec_flat_lines(files@.take(fi as int)),
        decreases files@.len() - fi,
    {
        let file = &files[fi];
        let mut hi: usize = 0;
        while hi < file.hunks.len()
            invariant
                fi < files@.len(),
                *file == files@[fi as int],
                hi <= file.hunks@.len(),
                flat@ == spec_flat_lines(files@.take(fi as int)) + file_flat(fi as nat, file.hunks@.take(hi as int)),
            decreases file.hunks@.len() - hi,
        {
            let hunk = &file.hunks[hi];
            let n = hunk.lines.len();
            let ghost base = flat@;
            let mut li: usize = 0;
            while li < n
                invariant
                    hi < file.hunks@.len(),
                    *hunk == file.hunks@[hi as int],
                    n == hunk.lines@.len(),
                    li <= n,
                    base == spec_flat_lines(files@.take(fi as int)) + file_flat(fi as nat, file.hunks@.take(hi as int)),
                    flat@ == base + hunk_flat(fi as nat, hi as nat, li as nat),
                decreases n - li,
            {
                flat.push(FlatLine { file_idx: fi, hunk_idx: hi, line_idx: li });
                proof {
                    assert(hunk_flat(fi as nat, hi as nat, (li + 1) as nat) =~= hunk_flat(fi as nat, hi as nat, li as nat).push(
                        FlatLine { file_idx: fi, hunk_idx: hi, line_idx: li },
                    ));
                    assert(flat@ =~= base + hunk_flat(fi as nat, hi as nat, (li + 1) as nat));
                }
                li = li + 1;
            }
            proof {
                let h1 = file.hunks@.take(hi + 1);
                assert(h1.drop_last() =~= file.hunks@.take(hi as int));
                assert(flat@ =~= spec_flat_lines(files@.take(fi as int)) + file_flat(fi as nat, h1));
            }
            hi = hi + 1;
        }
        proof {
            assert(file.hunks@.take(hi as int) =~= file.hunks@);
            let f1 = files@.take(fi + 1);
            assert(f1.drop_last() =~= files@.take(fi as int));
            assert(flat@ =~= spec_flat_lines(f1));
        }
        fi = fi + 1;
    }
    proof {
        assert(files@.take(fi as int) =~= files@);
    }
    flat
}

/// The flat indices at which a new file begins.
pub fn build_file_starts(flat_lines: &[FlatLine]) -> (r: Vec<usize>)
    ensures
        r@ == spec_file_starts(flat_lines@),
{
    let mut starts: Vec<usize> = Vec::new();
    let mut last_file: Option<usize> = None;
    let mut i: usize = 0;
    while i < flat_lines.len()
        invariant
            i <= flat_lines@.len(),
            last_file == (if i == 0 { None } else { Some(flat_lines@[i - 1].file_idx) }),
            starts@ == spec_file_starts(flat_lines@.take(i as int)),
        decreases flat_lines@.len() - i,
    {
        let fl = flat_lines[i];
        proof {
            let t = flat_lines@.take(i + 1);
            assert(t.drop_last() =~= flat_lines@.take(i as int));
        }
        let differs = match last_file {
            Some(f) => f != fl.file_idx,
            None => true,
        };
        if differs {
            starts.push(i);
            last_file = Some(fl.file_idx);
        }
        i = i + 1;
    }
    proof {
        assert(flat_lines@.take(i as int) =~= flat_lines@);
    }
    starts
}

} // verus!
