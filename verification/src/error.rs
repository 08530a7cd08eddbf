//! The refusals that checked operations answer with.
use vstd::prelude::*;

verus! {

/// Why an operation on a buffer or a grid was refused.
#[derive(Debug, Clone, Copy, PartialEq, Eq)]
pub enum Error {
    /// A length, width or height of zero.
    InvalidSize,
    /// An index, coordinate or range that reaches past the end.
    IndexOutOfBounds,
    /// Index arithmetic whose result does not fit in `usize`.
    ArithmeticOverflow,
    /// A buffer with fewer cells than the grid laid over it needs.
    BufferTooSmall,
}

} // verus!
