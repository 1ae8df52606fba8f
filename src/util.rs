//! Small helpers on integer triplets and slices.
use vstd::prelude::*;

verus! {

/// The componentwise sum of two triplets.
pub fn sum_ivec3(lhs: [i64; 3], rhs: [i64; 3]) -> (r: [i64; 3])
    requires
        i64::MIN <= lhs[0] + rhs[0] <= i64::MAX,
        i64::MIN <= lhs[1] + rhs[1] <= i64::MAX,
        i64::MIN <= lhs[2] + rhs[2] <= i64::MAX,
    ensures
        r[0] == lhs[0] + rhs[0],
        r[1] == lhs[1] + rhs[1],
        r[2] == lhs[2] + rhs[2],
{
    [lhs[0] + rhs[0], lhs[1] + rhs[1], lhs[2] + rhs[2]]
}

/// The componentwise difference of two triplets.
pub fn sub_ivec3(lhs: [i64; 3], rhs: [i64; 3]) -> (r: [i64; 3])
    requires
        i64::MIN <= lhs[0] - rhs[0] <= i64::MAX,
        i64::MIN <= lhs[1] - rhs[1] <= i64::MAX,
        i64::MIN <= lhs[2] - rhs[2] <= i64::MAX,
    ensures
        r[0] == lhs[0] - rhs[0],
        r[1] == lhs[1] - rhs[1],
        r[2] == lhs[2] - rhs[2],
{
    [lhs[0] - rhs[0], lhs[1] - rhs[1], lhs[2] - rhs[2]]
}

/// Relies on `Vec::into_boxed_slice`: the boxed slice holds the vector's elements, in order.
#[verifier::external_body]
fn into_boxed<T>(v: Vec<T>) -> (r: Box<[T]>)
    ensures
        r@ == v@,
{
    v.into_boxed_slice()
}

/// A boxed slice of `len` clones of `item`.
pub fn boxed_slice<T: Clone>(item: T, len: usize) -> (r: Box<[T]>)
    ensures
        r@.len() == len,
        forall|i: int| 0 <= i < len ==> cloned(item, #[trigger] r@[i]),
{
    into_boxed(vec![item; len])
}

} // verus!
