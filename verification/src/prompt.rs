//! The one computation behind the interactive prompts: reading a confirm
//! answer. The prompts themselves (line editing, list boxes) live outside
//! the crate.

use vstd::prelude::*;

verus! {

/// Reads a confirm prompt's answer. Only the four answers a confirm prompt
/// can hand back are allowed.
pub fn bool_from_str(s: &str) -> (r: bool)
    requires
        s@ == "y"@ || s@ == "yes"@ || s@ == "n"@ || s@ == "no"@,
    ensures
        r == (s@ == "y"@ || s@ == "yes"@),
{
    if crate::text::str_eq(s, "y") || crate::text::str_eq(s, "yes") {
        true
    } else {
        false
    }
}

} // verus!
