use vstd::prelude::*;

verus! {

/// The editing mode of the diff viewer, as in vim.
#[allow(inconsistent_fields)]
#[derive(Debug, Clone, Copy, PartialEq, Eq)]
pub enum Mode {
    Normal,
    VisualLine { anchor: usize },
    VisualBlock { anchor: (usize, usize) },
    CommentInsert,
    CommentNormal,
    Command,
}

/// The label that the status bar shows for each mode.
pub open spec fn spec_label(m: Mode) -> Seq<char> {
    match m {
        Mode::Normal => "NORMAL"@,
        Mode::VisualLine { .. } => "V-LINE"@,
        Mode::VisualBlock { .. } => "V-BLOCK"@,
        Mode::CommentInsert => "COMMENT"@,
        Mode::CommentNormal => "COMMENT"@,
        Mode::Command => "COMMAND"@,
    }
}

impl Mode {
    pub fn label(&self) -> (r: &'static str)
        ensures
            r@ == spec_label(*self),
    {
        match self {
            Mode::Normal => "NORMAL",
            Mode::VisualLine { .. } => "V-LINE",
            Mode::VisualBlock { .. } => "V-BLOCK",
            Mode::CommentInsert => "COMMENT",
            Mode::CommentNormal => "COMMENT",
            Mode::Command => "COMMAND",
        }
    }
}

} // verus!
