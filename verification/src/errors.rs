use vstd::prelude::*;

verus! {

/// Failure conditions raised by array construction and by the reduction
/// engine. All of them are recoverable, typed errors: no operation in this
/// crate aborts on bad input.
#[derive(Debug, Clone, Copy, PartialEq, Eq, Structural)]
pub enum ArrayError {
    /// The data buffer length does not match the element count implied by
    /// the shape. `expected` is the shape's size, `actual` the buffer length.
    DimensionMismatch { expected: usize, actual: usize },
    /// A reduction was requested on an array that holds no elements.
    EmptyArray,
    /// The requested axis index is at least the rank of the array.
    InvalidAxis(usize),
    /// Reductions are implemented for ranks one, two, and three only; the
    /// payload is the offending rank.
    UnimplementedDimension(usize),
}

} // verus!
