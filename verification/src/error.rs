use vstd::prelude::*;

verus! {

/// Why an operation refused its input.
#[derive(Debug, Clone, Copy, PartialEq, Eq, Structural)]
pub enum AutomatonError {
    /// The row is empty, or the requested row length is zero.
    InvalidRowLength,
    /// The requested row length exceeds the largest one whose transition
    /// matrix can be indexed.
    SizeTooLarge,
}

} // verus!
