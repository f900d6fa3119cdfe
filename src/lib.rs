//! Dense vectors and row-major matrices with elementwise arithmetic,
//! construction helpers and a few algebraic operations (transpose,
//! products, trace and a cofactor-expansion determinant).
use vstd::prelude::*;

pub mod math;

verus! {

/// Sum of two unsigned integers; the caller guarantees it fits in `u64`.
pub fn add(left: u64, right: u64) -> (r: u64)
    requires
        left + right <= u64::MAX,
    ensures
        r == left + right,
{
    left + right
}

} // verus!
