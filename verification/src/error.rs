//! The ways in which lexing and evaluation fail.

use vstd::prelude::*;

verus! {

/// Why lexing or evaluation stopped. Every one of these ends the run.
#[derive(Clone, Copy, Debug, PartialEq, Eq, Structural)]
pub enum Error {
    /// A value was needed and the operand stack did not hold enough.
    StackUnderflow,
    /// An operator met a value of a kind it is not defined for.
    TypeMismatch,
    /// A name was assigned to, or a property read, that was never declared.
    UndefinedBinding,
    /// A block is not closed, or a word that must follow another is missing.
    MalformedProgram,
    /// A name is neither a binding, a macro, a function nor a primitive.
    UnresolvedIdentifier,
    /// An imported resource is not available.
    ResourceError,
    /// An index points past the end of an array.
    OutOfRange,
}

} // verus!
