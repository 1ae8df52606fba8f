//! A heap-backed volume whose region may sit anywhere, negative coordinates included.
use vstd::prelude::*;
use vstd::std_specs::cmp::PartialEqSpec;

use crate::bounding_box::BoundingBox;
use crate::index::pos;
use crate::volume::Volume;

verus! {

/// A volume over any region, storing its items on the heap in walk order:
/// x varies fastest, z slowest, starting at the region's lowest corner.
pub struct HeapVolume<T> {
    bounding_box: BoundingBox,
    data: Vec<T>,
}

impl<T> HeapVolume<T> {
    /// Builds a volume over `bounding_box` with every slot a clone of `item`.
    pub fn new(item: T, bounding_box: BoundingBox) -> (r: Self) where T: Clone
        requires
            bounding_box.wf(),
            bounding_box.cap() <= usize::MAX,
        ensures
            r.wf(),
            r.region() == bounding_box,
            forall|p: (int, int, int)|
                bounding_box.contains_pos(p) ==> cloned(item, #[trigger] r.cells()[p]),
    {
        let n = bounding_box.capacity() as usize;
        let data = vec![item; n];
        let r = HeapVolume { bounding_box, data };
        assert forall|p: (int, int, int)|
            bounding_box.contains_pos(p) implies cloned(item, #[trigger] r.cells()[p]) by {
            bounding_box.lemma_index_bounds(p);
        }
        r
    }

    /// The place in storage of a position of the region.
    fn local_index(&self, p: [i64; 3]) -> (r: usize)
        requires
            self.wf(),
            self.region().contains_pos(pos(p)),
        ensures
            r == self.region().index_of(pos(p)),
            r < self.data.len(),
    {
        let b = self.bounding_box;
        let lo = b.min();
        let hi = b.max();
        proof {
            b.lemma_index_bounds(pos(p));
        }
        let ghost sx = b.span(0);
        let ghost sy = b.span(1);
        let ghost sz = b.span(2);
        let ghost x = p[0] - lo[0];
        let ghost y = p[1] - lo[1];
        let ghost z = p[2] - lo[2];
        assert(sx <= sx * sy <= sx * sy * sz && sy <= sx * sy * sz && sz <= sx * sy * sz && 0
            <= y * sx && 0 <= z * (sx * sy)) by (nonlinear_arith)
            requires
                0 <= x < sx,
                0 <= y < sy,
                0 <= z < sz,
        ;
        let wx = (hi[0] as i128 - lo[0] as i128) as usize;
        let wy = (hi[1] as i128 - lo[1] as i128) as usize;
        let dx = (p[0] as i128 - lo[0] as i128) as usize;
        let dy = (p[1] as i128 - lo[1] as i128) as usize;
        let dz = (p[2] as i128 - lo[2] as i128) as usize;
        assert(dx == x && dy == y && dz == z && wx == sx && wy == sy);
        dx + dy * wx + dz * (wx * wy)
    }
}

/// The items of a region stored in walk order.
spec fn cells_of<T>(b: BoundingBox, data: Seq<T>) -> Map<(int, int, int), T> {
    Map::new(|p: (int, int, int)| b.contains_pos(p), |p: (int, int, int)| data[b.index_of(p)])
}

/// Writing one slot of the storage writes the item of exactly one position.
proof fn lemma_cells_update<T>(b: BoundingBox, data: Seq<T>, p: (int, int, int), v: T)
    requires
        b.wf(),
        b.contains_pos(p),
        data.len() == b.cap(),
    ensures
        cells_of(b, data.update(b.index_of(p), v)) == cells_of(b, data).insert(p, v),
{
    b.lemma_index_bounds(p);
    assert forall|q: (int, int, int)| b.contains_pos(q) && q != p implies #[trigger] b.index_of(q)
        != b.index_of(p) && 0 <= b.index_of(q) < b.cap() by {
        b.lemma_index_bounds(q);
        if b.index_of(q) == b.index_of(p) {
            b.lemma_index_injective(q, p);
        }
    }
    assert(cells_of(b, data.update(b.index_of(p), v)) =~= cells_of(b, data).insert(p, v));
}

impl<T> Volume for HeapVolume<T> {
    type Item = T;

    closed spec fn wf(&self) -> bool {
        &&& self.bounding_box.wf()
        &&& self.data.len() == self.bounding_box.cap()
    }

    closed spec fn region(&self) -> BoundingBox {
        self.bounding_box
    }

    closed spec fn cells(&self) -> Map<(int, int, int), T> {
        cells_of(self.bounding_box, self.data@)
    }

    proof fn lemma_wf(&self) {
    }

    fn bounding_box(&self) -> (r: BoundingBox) {
        self.bounding_box
    }

    fn slot(&self, p: [i64; 3]) -> (r: &T) {
        let i = self.local_index(p);
        &self.data[i]
    }

    fn slot_mut(&mut self, p: [i64; 3]) -> (r: &mut T) {
        let i = self.local_index(p);
        proof {
            assert forall|v: T|
                #![trigger self.data@.update(i as int, v)]
                cells_of(self.bounding_box, self.data@.update(i as int, v)) == self.cells().insert(
                    pos(p),
                    v,
                ) by {
                lemma_cells_update(self.bounding_box, self.data@, pos(p), v);
            }
        }
        &mut self.data[i]
    }

    fn replace_slot(&mut self, p: [i64; 3], item: T) -> (r: T) {
        let i = self.local_index(p);
        proof {
            lemma_cells_update(self.bounding_box, self.data@, pos(p), item);
        }
        let mut out = item;
        std::mem::swap(&mut self.data[i], &mut out);
        out
    }
}

impl<T> HeapVolume<T> {
    /// The items, in walk order.
    pub closed spec fn items(&self) -> Seq<T> {
        self.data@
    }

    /// The items are stored in walk order: the item of each position sits at its place
    /// in the walk over the region.
    pub proof fn lemma_items_in_walk_order(&self)
        requires
            self.wf(),
        ensures
            self.items().len() == self.region().cap(),
            forall|p: (int, int, int)|
                self.region().contains_pos(p) ==> #[trigger] self.cells()[p] == self.items()[
                    self.region().index_of(p)],
    {
    }
}

impl<T: PartialEq> PartialEq for HeapVolume<T> {
    /// Two volumes are equal when their regions are equal and their items are pairwise
    /// equal in walk order.
    fn eq(&self, other: &Self) -> (r: bool) {
        let a = self.bounding_box;
        let b = other.bounding_box;
        let (amin, amax, bmin, bmax) = (a.min(), a.max(), b.min(), b.max());
        if !(amin[0] == bmin[0] && amin[1] == bmin[1] && amin[2] == bmin[2] && amax[0] == bmax[0]
            && amax[1] == bmax[1] && amax[2] == bmax[2]) {
            return false;
        }
        proof {
            a.lemma_corners_determine(b);
        }
        let n = self.data.len();
        if n != other.data.len() {
            return false;
        }
        let mut i: usize = 0;
        while i < n
            invariant
                n == self.data.len(),
                n == other.data.len(),
                0 <= i <= n,
                T::obeys_eq_spec() ==> forall|j: int|
                    0 <= j < i ==> (#[trigger] self.data@[j]).eq_spec(&other.data@[j]),
            decreases n - i,
        {
            if !(self.data[i] == other.data[i]) {
                return false;
            }
            i = i + 1;
        }
        true
    }
}

impl<T: PartialEq> vstd::std_specs::cmp::PartialEqSpecImpl for HeapVolume<T> {
    open spec fn obeys_eq_spec() -> bool {
        T::obeys_eq_spec()
    }

    open spec fn eq_spec(&self, other: &Self) -> bool {
        &&& self.region() == other.region()
        &&& self.items().len() == other.items().len()
        &&& forall|j: int|
            0 <= j < self.items().len() ==> (#[trigger] self.items()[j]).eq_spec(
                &other.items()[j],
            )
    }
}

} // verus!
