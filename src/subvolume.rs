//! A view restricting a borrowed volume to a sub-region.
use vstd::prelude::*;

use crate::bounding_box::BoundingBox;
use crate::error::OversizedBounds;
use crate::index::pos;
use crate::volume::Volume;

verus! {

/// Whether `bounds` passes the size check against `outer`: both of its corners lie
/// inside `outer`.
pub open spec fn fits_in(bounds: BoundingBox, outer: BoundingBox) -> bool {
    outer.contains_pos(pos(bounds.lo())) && outer.contains_pos(pos(bounds.hi()))
}

/// An exclusive borrow of a volume whose accesses are restricted to `bounds`.
pub struct Subvolume<'a, Vol: Volume> {
    bounds: BoundingBox,
    vol: &'a mut Vol,
}

impl<'a, Vol: Volume> Subvolume<'a, Vol> {
    /// The borrowed volume, as it stands now.
    pub closed spec fn inner(self) -> Vol {
        *self.vol
    }

    /// The borrow of the volume.
    pub closed spec fn borrow(self) -> &'a mut Vol {
        self.vol
    }

    /// Restricts `vol` to `bounds`; refused when a corner of `bounds` lies outside `vol`.
    pub fn new(vol: &'a mut Vol, bounds: BoundingBox) -> (r: Result<Self, OversizedBounds>)
        requires
            old(vol).wf(),
            bounds.wf(),
        ensures
            r is Ok <==> fits_in(bounds, old(vol).region()),
            r matches Ok(s) ==> {
                &&& s.wf()
                &&& s.region() == bounds
                &&& s.inner() == *old(vol)
                &&& *final(s.borrow()) == *final(vol)
            },
            r matches Err(e) ==> {
                &&& e.provided_spec() == bounds
                &&& e.expected_spec() == Some(old(vol).region())
                &&& *final(vol) == *old(vol)
            },
    {
        let region = vol.bounding_box();
        if region.contains(bounds.min()) && region.contains(bounds.max()) {
            Ok(Subvolume { bounds, vol })
        } else {
            Err(OversizedBounds::new(bounds, Some(region)))
        }
    }
}


impl<'a, Vol: Volume> Subvolume<'a, Vol> {
    /// Replaces the restricting region; refused when a corner of `bounds` lies outside
    /// the borrowed volume, which then stays untouched.
    pub fn resize(self, bounds: BoundingBox) -> (r: Result<Self, OversizedBounds>)
        requires
            self.wf(),
            bounds.wf(),
        ensures
            r is Ok <==> fits_in(bounds, self.inner().region()),
            r matches Ok(s) ==> {
                &&& s.wf()
                &&& s.region() == bounds
                &&& s.inner() == self.inner()
                &&& *final(s.borrow()) == *final(self.borrow())
            },
            r matches Err(e) ==> {
                &&& e.provided_spec() == bounds
                &&& e.expected_spec() == Some(self.inner().region())
                &&& *final(self.borrow()) == self.inner()
            },
    {
        if self.vol.contains(bounds.max()) && self.vol.contains(bounds.min()) {
            Ok(Subvolume { bounds, vol: self.vol })
        } else {
            Err(OversizedBounds::new(bounds, Some(self.vol.bounding_box())))
        }
    }
}

/// The positions of a box, as a set.
pub open spec fn positions(b: BoundingBox) -> Set<(int, int, int)> {
    Set::new(|p: (int, int, int)| b.contains_pos(p))
}

impl<'a, Vol: Volume> Volume for Subvolume<'a, Vol> {
    type Item = Vol::Item;

    closed spec fn wf(&self) -> bool {
        &&& self.inner().wf()
        &&& self.bounds.wf()
        &&& fits_in(self.bounds, self.inner().region())
    }

    closed spec fn region(&self) -> BoundingBox {
        self.bounds
    }

    closed spec fn cells(&self) -> Map<(int, int, int), Vol::Item> {
        self.inner().cells().restrict(positions(self.bounds))
    }

    proof fn lemma_wf(&self) {
        self.inner().lemma_wf();
        assert forall|p: (int, int, int)| #[trigger]
            self.cells().dom().contains(p) <==> self.region().contains_pos(p) by {
            if self.bounds.contains_pos(p) {
                assert(self.inner().region().contains_pos(p));
            }
        }
    }

    fn bounding_box(&self) -> (r: BoundingBox) {
        self.bounds
    }

    fn slot(&self, p: [i64; 3]) -> (r: &Vol::Item) {
        proof {
            self.lemma_wf();
            self.inner().lemma_wf();
            assert(self.cells()[pos(p)] == self.inner().cells()[pos(p)]);
        }
        self.vol.slot(p)
    }

    fn slot_mut(&mut self, p: [i64; 3]) -> (r: &mut Vol::Item) {
        proof {
            self.lemma_wf();
            self.inner().lemma_wf();
            assert(self.cells()[pos(p)] == self.inner().cells()[pos(p)]);
            assert forall|v: Vol::Item|
                #![trigger self.inner().cells().insert(pos(p), v)]
                self.inner().cells().insert(pos(p), v).restrict(positions(self.bounds))
                    == self.cells().insert(pos(p), v) by {
                assert(self.inner().cells().insert(pos(p), v).restrict(positions(self.bounds))
                    =~= self.cells().insert(pos(p), v));
            }
        }
        self.vol.slot_mut(p)
    }

    fn replace_slot(&mut self, p: [i64; 3], item: Vol::Item) -> (r: Vol::Item) {
        proof {
            self.lemma_wf();
            assert(self.inner().cells().insert(pos(p), item).restrict(positions(self.bounds))
                =~= self.cells().insert(pos(p), item));
        }
        self.vol.replace_slot(p, item)
    }
}

} // verus!
