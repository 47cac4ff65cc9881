//! The names that the host process handles itself.

use crate::text::same_text;
use vstd::prelude::*;

verus! {

/// The one name that is reserved for the host process itself.
pub open spec fn built_in_name() -> Seq<char> {
    seq!['e', 'x', 'i', 't']
}

/// Whether `name` is handled by the host process rather than by the
/// interpreter.
pub fn is_built_in(name: &str) -> (r: bool)
    ensures
        r == (name@ == built_in_name()),
{
    proof {
        reveal_strlit("exit");
        assert("exit"@ =~= built_in_name());
    }
    same_text(name, "exit")
}

} // verus!
