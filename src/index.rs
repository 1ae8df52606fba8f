//! Integer triplets that can address a position in a volume.
use vstd::prelude::*;

verus! {

/// A fixed-size triplet of integers that can name a position.
///
/// Every implementation exposes its components as mathematical integers and can
/// hand them out widened to `i128` without loss; every fallible conversion to a
/// narrower type is built on top of that.
pub trait VolumeIdx: Sized + Copy {
    /// The x, y and z components.
    spec fn coords(&self) -> (int, int, int);

    /// The components, widened to `i128`.
    fn widen(self) -> (r: [i128; 3])
        ensures
            (r[0] as int, r[1] as int, r[2] as int) == self.coords(),
            is_narrow(self.coords()),
    ;
}

impl VolumeIdx for [i8; 3] {
    open spec fn coords(&self) -> (int, int, int) {
        (self[0] as int, self[1] as int, self[2] as int)
    }

    fn widen(self) -> (r: [i128; 3]) {
        [self[0] as i128, self[1] as i128, self[2] as i128]
    }
}

impl VolumeIdx for [i16; 3] {
    open spec fn coords(&self) -> (int, int, int) {
        (self[0] as int, self[1] as int, self[2] as int)
    }

    fn widen(self) -> (r: [i128; 3]) {
        [self[0] as i128, self[1] as i128, self[2] as i128]
    }
}

impl VolumeIdx for [i32; 3] {
    open spec fn coords(&self) -> (int, int, int) {
        (self[0] as int, self[1] as int, self[2] as int)
    }

    fn widen(self) -> (r: [i128; 3]) {
        [self[0] as i128, self[1] as i128, self[2] as i128]
    }
}

impl VolumeIdx for [i64; 3] {
    open spec fn coords(&self) -> (int, int, int) {
        (self[0] as int, self[1] as int, self[2] as int)
    }

    fn widen(self) -> (r: [i128; 3]) {
        [self[0] as i128, self[1] as i128, self[2] as i128]
    }
}

impl VolumeIdx for [isize; 3] {
    open spec fn coords(&self) -> (int, int, int) {
        (self[0] as int, self[1] as int, self[2] as int)
    }

    fn widen(self) -> (r: [i128; 3]) {
        [self[0] as i128, self[1] as i128, self[2] as i128]
    }
}

impl VolumeIdx for [u8; 3] {
    open spec fn coords(&self) -> (int, int, int) {
        (self[0] as int, self[1] as int, self[2] as int)
    }

    fn widen(self) -> (r: [i128; 3]) {
        [self[0] as i128, self[1] as i128, self[2] as i128]
    }
}

impl VolumeIdx for [u16; 3] {
    open spec fn coords(&self) -> (int, int, int) {
        (self[0] as int, self[1] as int, self[2] as int)
    }

    fn widen(self) -> (r: [i128; 3]) {
        [self[0] as i128, self[1] as i128, self[2] as i128]
    }
}

impl VolumeIdx for [u32; 3] {
    open spec fn coords(&self) -> (int, int, int) {
        (self[0] as int, self[1] as int, self[2] as int)
    }

    fn widen(self) -> (r: [i128; 3]) {
        [self[0] as i128, self[1] as i128, self[2] as i128]
    }
}

impl VolumeIdx for [u64; 3] {
    open spec fn coords(&self) -> (int, int, int) {
        (self[0] as int, self[1] as int, self[2] as int)
    }

    fn widen(self) -> (r: [i128; 3]) {
        [self[0] as i128, self[1] as i128, self[2] as i128]
    }
}

impl VolumeIdx for [usize; 3] {
    open spec fn coords(&self) -> (int, int, int) {
        (self[0] as int, self[1] as int, self[2] as int)
    }

    fn widen(self) -> (r: [i128; 3]) {
        [self[0] as i128, self[1] as i128, self[2] as i128]
    }
}

/// Every component lies between `i64::MIN` and `u64::MAX`, the range of the
/// primitive integers that can form an index.
pub open spec fn is_narrow(c: (int, int, int)) -> bool {
    &&& i64::MIN <= c.0 <= u64::MAX
    &&& i64::MIN <= c.1 <= u64::MAX
    &&& i64::MIN <= c.2 <= u64::MAX
}

/// A triplet of `i64` seen as a position.
pub open spec fn pos(a: [i64; 3]) -> (int, int, int) {
    (a[0] as int, a[1] as int, a[2] as int)
}

/// Whether every component can be represented as an `i64`.
pub open spec fn fits_i64(c: (int, int, int)) -> bool {
    &&& i64::MIN <= c.0 <= i64::MAX
    &&& i64::MIN <= c.1 <= i64::MAX
    &&& i64::MIN <= c.2 <= i64::MAX
}

/// Whether every component can be represented as a `usize`.
pub open spec fn fits_usize(c: (int, int, int)) -> bool {
    &&& 0 <= c.0 <= usize::MAX
    &&& 0 <= c.1 <= usize::MAX
    &&& 0 <= c.2 <= usize::MAX
}

/// Casts every component to `i64`; `None` when one of them does not fit.
pub fn unpack_i64<I: VolumeIdx>(idx: I) -> (r: Option<[i64; 3]>)
    ensures
        r is Some <==> fits_i64(idx.coords()),
        r matches Some(a) ==> pos(a) == idx.coords(),
{
    let w = idx.widen();
    if i64::MIN as i128 <= w[0] && w[0] <= i64::MAX as i128 && i64::MIN as i128 <= w[1]
        && w[1] <= i64::MAX as i128 && i64::MIN as i128 <= w[2] && w[2] <= i64::MAX as i128 {
        Some([w[0] as i64, w[1] as i64, w[2] as i64])
    } else {
        None
    }
}

/// Casts every component to `usize`; `None` when one of them is negative or too large.
pub fn idx_usize<I: VolumeIdx>(idx: I) -> (r: Option<[usize; 3]>)
    ensures
        r is Some <==> fits_usize(idx.coords()),
        r matches Some(a) ==> (a[0] as int, a[1] as int, a[2] as int) == idx.coords(),
{
    let w = idx.widen();
    if 0 <= w[0] && w[0] <= usize::MAX as i128 && 0 <= w[1] && w[1] <= usize::MAX as i128
        && 0 <= w[2] && w[2] <= usize::MAX as i128 {
        Some([w[0] as usize, w[1] as usize, w[2] as usize])
    } else {
        None
    }
}

} // verus!
