use vstd::prelude::*;

verus! {

/// What can go wrong when building, reading or reshaping a [`Vecgrid`](crate::Vecgrid).
#[derive(Debug, Clone, Copy, PartialEq, Eq, Structural)]
pub enum Error {
    /// The given (row, column) pair lies outside the grid.
    IndicesOutOfBounds(usize, usize),
    /// The given linear index (row-major or column-major), or row position, lies outside the grid.
    IndexOutOfBounds(usize),
    /// The supplied rows, columns or flat buffer disagree with the dimensions.
    DimensionMismatch,
    /// A source of elements ran dry before filling the grid.
    NotEnoughElements,
}

} // verus!
