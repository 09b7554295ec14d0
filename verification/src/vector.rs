use vstd::prelude::*;

use crate::error::Error;

verus! {

/// An ordered, fixed-length sequence of numeric elements.
///
/// A `Vector` is a transient view copied out of a matrix row or column; its
/// only operation is the multiply-accumulate reduction `dot_product`.
pub struct Vector {
    pub data: Vec<i64>,
}

impl Vector {
    pub fn new(data: Vec<i64>) -> (v: Vector)
        ensures
            v.data@ == data@,
    {
        Vector { data }
    }
}

/// The dot product of the first `n` elements of `a` and `b`, folded from the
/// left with the element type's wrapping add and multiply, starting from the
/// additive identity.
pub open spec fn dot_prefix(a: Seq<i64>, b: Seq<i64>, n: int) -> i64
    decreases n,
{
    if n <= 0 {
        0i64
    } else {
        dot_prefix(a, b, n - 1).wrapping_add(a[n - 1].wrapping_mul(b[n - 1]))
    }
}

/// The full dot product of two equal-length sequences.
pub open spec fn dot_spec(a: Seq<i64>, b: Seq<i64>) -> i64
    recommends
        a.len() == b.len(),
{
    dot_prefix(a, b, a.len() as int)
}

/// Computes `sum_i a[i] * b[i]` with the element type's wrapping arithmetic.
///
/// Succeeds exactly when the operands have the same length; a length mismatch
/// yields `Error::LengthMismatch` and no partial result.
pub fn dot_product(a: &Vector, b: &Vector) -> (r: Result<i64, Error>)
    ensures
        a.data@.len() == b.data@.len() ==> r == Ok::<i64, Error>(dot_spec(a.data@, b.data@)),
        a.data@.len() != b.data@.len() ==> r == Err::<i64, Error>(Error::LengthMismatch),
{
    if a.data.len() != b.data.len() {
        return Err(Error::LengthMismatch);
    }
    let mut sum: i64 = 0;
    let mut i: usize = 0;
    while i < a.data.len()
        invariant
            i <= a.data@.len(),
            a.data@.len() == b.data@.len(),
            sum == dot_prefix(a.data@, b.data@, i as int),
        decreases a.data@.len() - i,
    {
        sum = sum.wrapping_add(a.data[i].wrapping_mul(b.data[i]));
        i = i + 1;
    }
    Ok(sum)
}

} // verus!
