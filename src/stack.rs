//! A fixed-size volume anchored at the origin, whose extents are part of its type.
use vstd::array::array_fill_for_copy_types;
use vstd::prelude::*;

use crate::bounding_box::{box_from, lemma_box_from, BoundingBox};
use crate::index::pos;
use crate::volume::Volume;

verus! {

/// A volume over the box from the origin to `(X, Y, Z)`, stored inline as nested
/// arrays indexed `[x][y][z]`; it never allocates.
pub struct StackVolume<T, const X: usize, const Y: usize, const Z: usize> {
    data: [[[T; Z]; Y]; X],
}

impl<T: Copy, const X: usize, const Y: usize, const Z: usize> StackVolume<T, X, Y, Z> {
    /// The extents fit the coordinate type.
    pub open spec fn dims_fit() -> bool {
        X <= i64::MAX && Y <= i64::MAX && Z <= i64::MAX
    }

    /// Builds a volume with every slot equal to `item`.
    pub fn new(item: T) -> (r: Self)
        requires
            Self::dims_fit(),
        ensures
            r.wf(),
            r.region() == box_from([0, 0, 0], [X as i64, Y as i64, Z as i64]),
            forall|p: (int, int, int)|
                r.region().contains_pos(p) ==> #[trigger] r.cells()[p] == item,
    {
        let row: [T; Z] = array_fill_for_copy_types(item);
        let plane: [[T; Z]; Y] = array_fill_for_copy_types(row);
        let data: [[[T; Z]; Y]; X] = array_fill_for_copy_types(plane);
        let r = StackVolume { data };
        proof {
            lemma_box_from([0, 0, 0], [X as i64, Y as i64, Z as i64]);
        }
        r
    }

    /// Builds a volume holding `data`, where `data[x][y][z]` is the item at `(x, y, z)`.
    pub fn from_array(data: [[[T; Z]; Y]; X]) -> (r: Self)
        requires
            Self::dims_fit(),
        ensures
            r.wf(),
            r.region() == box_from([0, 0, 0], [X as i64, Y as i64, Z as i64]),
            forall|p: (int, int, int)|
                r.region().contains_pos(p) ==> #[trigger] r.cells()[p] == data[p.0][p.1][p.2],
    {
        proof {
            lemma_box_from([0, 0, 0], [X as i64, Y as i64, Z as i64]);
        }
        StackVolume { data }
    }
}

impl<T: Copy, const X: usize, const Y: usize, const Z: usize> Volume for StackVolume<T, X, Y, Z> {
    type Item = T;

    closed spec fn wf(&self) -> bool {
        Self::dims_fit()
    }

    closed spec fn region(&self) -> BoundingBox {
        box_from([0, 0, 0], [X as i64, Y as i64, Z as i64])
    }

    closed spec fn cells(&self) -> Map<(int, int, int), T> {
        Map::new(
            |p: (int, int, int)| self.region().contains_pos(p),
            |p: (int, int, int)| self.data[p.0][p.1][p.2],
        )
    }

    proof fn lemma_wf(&self) {
        lemma_box_from([0, 0, 0], [X as i64, Y as i64, Z as i64]);
    }

    fn bounding_box(&self) -> (r: BoundingBox) {
        BoundingBox::new_origin([X, Y, Z])
    }

    fn slot(&self, p: [i64; 3]) -> (r: &T) {
        proof {
            lemma_box_from([0, 0, 0], [X as i64, Y as i64, Z as i64]);
        }
        &self.data[p[0] as usize][p[1] as usize][p[2] as usize]
    }

    fn slot_mut(&mut self, p: [i64; 3]) -> (r: &mut T) {
        proof {
            lemma_box_from([0, 0, 0], [X as i64, Y as i64, Z as i64]);
        }
        &mut self.data[p[0] as usize][p[1] as usize][p[2] as usize]
    }

    fn replace_slot(&mut self, p: [i64; 3], item: T) -> (r: T) {
        proof {
            lemma_box_from([0, 0, 0], [X as i64, Y as i64, Z as i64]);
        }
        let (x, y, z) = (p[0] as usize, p[1] as usize, p[2] as usize);
        let mut out = item;
        std::mem::swap(&mut self.data[x][y][z], &mut out);
        assert(self.cells() =~= old(self).cells().insert(pos(p), item));
        out
    }
}

} // verus!
