//! What can go wrong.

use vstd::prelude::*;

verus! {

#[derive(Debug, Clone, Copy, PartialEq, Eq, Structural)]
pub enum TodoError {
    /// A line starts with the completion marker `x` and has no date after it.
    MissingCompletionDate,
    /// The date of the task at this position cannot be read as `YYYY-MM-DD`.
    MalformedDate(usize),
    /// A position at or past the end of the list it addresses.
    IndexOutOfRange { index: usize, len: usize },
    /// A command was given no value where it needs one.
    MissingArgument,
    /// A position that is not a decimal number.
    InvalidIndex,
}

} // verus!
