//! The agents for which the companion extension can be installed.

use vstd::prelude::*;

use crate::tmux::str_eq;

verus! {

/// Whether the extension can be installed for `target`: only for `pi`.
pub fn supported_target(target: &str) -> (r: bool)
    ensures
        r == (target@ == "pi"@),
{
    str_eq(target, "pi")
}

} // verus!
