use vstd::prelude::*;

verus! {

/// The kind of a line in a unified diff.
#[derive(Debug, Clone, Copy, PartialEq, Eq, Structural)]
pub enum LineType {
    Context,
    Addition,
    Deletion,
}

/// The one-character prefix that a unified diff writes before a line of each kind.
pub open spec fn spec_prefix(kind: LineType) -> Seq<char> {
    match kind {
        LineType::Addition => seq!['+'],
        LineType::Deletion => seq!['-'],
        LineType::Context => seq![' '],
    }
}

impl LineType {
    pub fn prefix(&self) -> (r: &'static str)
        ensures
            r@ == spec_prefix(*self),
    {
        match self {
            LineType::Addition => {
                proof {
                    reveal_strlit("+");
                }
                "+"
            },
            LineType::Deletion => {
                proof {
                    reveal_strlit("-");
                }
                "-"
            },
            LineType::Context => {
                proof {
                    reveal_strlit(" ");
                }
                " "
            },
        }
    }
}

/// One line of a hunk, with its line numbers in the old and the new file.
#[derive(Debug, Clone)]
pub struct DiffLine {
    pub kind: LineType,
    pub content: String,
    pub old_lineno: Option<u32>,
    pub new_lineno: Option<u32>,
}

/// A hunk: its starting line numbers, its `@@` header and its lines.
#[derive(Debug, Clone)]
pub struct Hunk {
    pub old_start: u32,
    pub new_start: u32,
    pub header: String,
    pub lines: Vec<DiffLine>,
}

/// The changes to one file.
#[derive(Debug, Clone)]
pub struct DiffFile {
    pub path: String,
    pub old_path: Option<String>,
    pub hunks: Vec<Hunk>,
    pub is_new: bool,
    pub is_deleted: bool,
    pub is_binary: bool,
}

/// The number of lines of kind `k` in `lines`.
pub open spec fn count_kind(lines: Seq<DiffLine>, k: LineType) -> nat
    decreases lines.len(),
{
    if lines.len() == 0 {
        0
    } else {
        count_kind(lines.drop_last(), k) + if lines.last().kind == k {
            1nat
        } else {
            0nat
        }
    }
}

/// The number of lines of kind `k` over all of `hunks`.
pub open spec fn hunks_count_kind(hunks: Seq<Hunk>, k: LineType) -> nat
    decreases hunks.len(),
{
    if hunks.len() == 0 {
        0
    } else {
        hunks_count_kind(hunks.drop_last(), k) + count_kind(hunks.last().lines@, k)
    }
}

/// The number of lines over all of `hunks`.
pub open spec fn hunks_line_total(hunks: Seq<Hunk>) -> nat
    decreases hunks.len(),
{
    if hunks.len() == 0 {
        0
    } else {
        hunks_line_total(hunks.drop_last()) + hunks.last().lines@.len()
    }
}

pub proof fn lemma_count_kind_le(lines: Seq<DiffLine>, k: LineType)
    ensures
        count_kind(lines, k) <= lines.len(),
    decreases lines.len(),
{
    if lines.len() > 0 {
        lemma_count_kind_le(lines.drop_last(), k);
    }
}

pub proof fn lemma_hunks_count_kind_le(hunks: Seq<Hunk>, k: LineType)
    ensures
        hunks_count_kind(hunks, k) <= hunks_line_total(hunks),
    decreases hunks.len(),
{
    if hunks.len() > 0 {
        lemma_hunks_count_kind_le(hunks.drop_last(), k);
        lemma_count_kind_le(hunks.last().lines@, k);
    }
}

impl DiffFile {
    /// The number of lines in the file's hunks, over all hunks.
    pub open spec fn line_total(&self) -> nat {
        hunks_line_total(self.hunks@)
    }

    /// Counts the added and the deleted lines of the file.
    pub fn line_counts(&self) -> (r: (usize, usize))
        requires
            self.line_total() <= usize::MAX,
        ensures
            r.0 == hunks_count_kind(self.hunks@, LineType::Addition),
            r.1 == hunks_count_kind(self.hunks@, LineType::Deletion),
    {
        let mut adds: usize = 0;
        let mut dels: usize = 0;
        let mut h: usize = 0;
        while h < self.hunks.len()
            invariant
                h <= self.hunks@.len(),
                self.line_total() <= usize::MAX,
                adds == hunks_count_kind(self.hunks@.take(h as int), LineType::Addition),
                dels == hunks_count_kind(self.hunks@.take(h as int), LineType::Deletion),
            decreases self.hunks@.len() - h,
        {
            let hunk = &self.hunks[h];
            let ghost before = self.hunks@.take(h as int);
            let mut i: usize = 0;
            while i < hunk.lines.len()
                invariant
                    h < self.hunks@.len(),
                    hunk == self.hunks@[h as int],
                    i <= hunk.lines@.len(),
                    before == self.hunks@.take(h as int),
                    self.line_total() <= usize::MAX,
                    adds == hunks_count_kind(before, LineType::Addition) + count_kind(
                        hunk.lines@.take(i as int),
                        LineType::Addition,
                    ),
                    dels == hunks_count_kind(before, LineType::Deletion) + count_kind(
                        hunk.lines@.take(i as int),
                        LineType::Deletion,
                    ),
                decreases hunk.lines@.len() - i,
            {
                proof {
                    assert(hunk.lines@.take(i + 1).drop_last() =~= hunk.lines@.take(i as int));
                    assert(self.hunks@.take(h + 1).drop_last() =~= before);
                    lemma_hunks_count_kind_le(self.hunks@.take(h + 1), LineType::Addition);
                    lemma_hunks_count_kind_le(self.hunks@.take(h + 1), LineType::Deletion);
                    lemma_count_kind_le(hunk.lines@.take(i + 1), LineType::Addition);
                    lemma_count_kind_le(hunk.lines@.take(i + 1), LineType::Deletion);
                    lemma_line_total_prefix(self.hunks@, h + 1);
                    lemma_hunks_count_kind_le(before, LineType::Addition);
                    lemma_hunks_count_kind_le(before, LineType::Deletion);
                    assert(hunks_line_total(self.hunks@.take(h + 1)) == hunks_line_total(before)
                        + hunk.lines@.len());
                }
                match hunk.lines[i].kind {
                    LineType::Addition => adds = adds + 1,
                    LineType::Deletion => dels = dels + 1,
                    LineType::Context => {},
                }
                i = i + 1;
            }
            proof {
                assert(hunk.lines@.take(i as int) =~= hunk.lines@);
                assert(self.hunks@.take(h + 1).drop_last() =~= before);
            }
            h = h + 1;
        }
        proof {
            assert(self.hunks@.take(h as int) =~= self.hunks@);
        }
        (adds, dels)
    }
}

pub proof fn lemma_line_total_prefix(hunks: Seq<Hunk>, n: int)
    requires
        0 <= n <= hunks.len(),
    ensures
        hunks_line_total(hunks.take(n)) <= hunks_line_total(hunks),
    decreases hunks.len(),
{
    if n < hunks.len() {
        assert(hunks.drop_last().take(n) =~= hunks.take(n));
        lemma_line_total_prefix(hunks.drop_last(), n);
    } else {
        assert(hunks.take(n) =~= hunks);
    }
}


/// A diff line with its content as a character sequence.
#[verifier::ext_equal]
pub struct LineView {
    pub kind: LineType,
    pub content: Seq<char>,
    pub old_lineno: Option<u32>,
    pub new_lineno: Option<u32>,
}

/// A hunk with its strings as character sequences.
#[verifier::ext_equal]
pub struct HunkView {
    pub old_start: u32,
    pub new_start: u32,
    pub header: Seq<char>,
    pub lines: Seq<LineView>,
}

/// A file's changes with its strings as character sequences.
#[verifier::ext_equal]
pub struct FileView {
    pub path: Seq<char>,
    pub old_path: Option<Seq<char>>,
    pub hunks: Seq<HunkView>,
    pub is_new: bool,
    pub is_deleted: bool,
    pub is_binary: bool,
}

impl View for DiffLine {
    type V = LineView;

    open spec fn view(&self) -> LineView {
        LineView { kind: self.kind, content: self.content@, old_lineno: self.old_lineno, new_lineno: self.new_lineno }
    }
}

impl View for Hunk {
    type V = HunkView;

    open spec fn view(&self) -> HunkView {
        HunkView {
            old_start: self.old_start,
            new_start: self.new_start,
            header: self.header@,
            lines: self.lines@.map_values(|l: DiffLine| l@),
        }
    }
}

impl View for DiffFile {
    type V = FileView;

    open spec fn view(&self) -> FileView {
        FileView {
            path: self.path@,
            old_path: match self.old_path {
                Some(p) => Some(p@),
                None => None,
            },
            hunks: self.hunks@.map_values(|h: Hunk| h@),
            is_new: self.is_new,
            is_deleted: self.is_deleted,
            is_binary: self.is_binary,
        }
    }
}

} // verus!
