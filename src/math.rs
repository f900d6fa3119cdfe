use vstd::prelude::*;

pub mod vector;
pub mod matrix;
pub mod text;

verus! {

/// Why a fallible vector or matrix operation refused its inputs.
#[derive(Debug, Clone, Copy, PartialEq, Eq, Structural)]
pub enum MathError {
    /// Operand shapes do not fit the operation (sizes differ, matrix not
    /// square, ragged or empty rows/columns, element count mismatch).
    DimensionMismatch,
    /// An index lies outside the vector or matrix.
    IndexOutOfBounds,
}

} // verus!
