use vstd::prelude::*;

verus! {

/// A comment on a range of flattened diff lines.
#[derive(Debug, Clone)]
pub struct Annotation {
    pub file: String,
    /// Flat line indices (for UI marker matching)
    pub flat_start: usize,
    pub flat_end: usize,
    /// Human-readable line range for markdown output
    pub display_range: String,
    pub diff_context: String,
    pub comment: String,
}


/// An annotation with its strings taken as character sequences.
#[verifier::ext_equal]
pub struct AnnotationView {
    pub file: Seq<char>,
    pub flat_start: usize,
    pub flat_end: usize,
    pub display_range: Seq<char>,
    pub diff_context: Seq<char>,
    pub comment: Seq<char>,
}

impl View for Annotation {
    type V = AnnotationView;

    open spec fn view(&self) -> AnnotationView {
        AnnotationView {
            file: self.file@,
            flat_start: self.flat_start,
            flat_end: self.flat_end,
            display_range: self.display_range@,
            diff_context: self.diff_context@,
            comment: self.comment@,
        }
    }
}

} // verus!
