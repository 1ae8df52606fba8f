//! The access contract shared by every storage backend, and the algorithms built on it.
use vstd::prelude::*;

use crate::bounding_box::{BoundingBox, BoundingBoxIterator};
use crate::error::InsertError;
use crate::index::{is_narrow, pos, VolumeIdx};
use crate::spaces::Space;

verus! {

/// A position moved by an offset.
pub open spec fn shifted(p: (int, int, int), at: (int, int, int)) -> (int, int, int) {
    (p.0 + at.0, p.1 + at.1, p.2 + at.2)
}

/// A position moved back by an offset.
pub open spec fn unshifted(q: (int, int, int), at: (int, int, int)) -> (int, int, int) {
    (q.0 - at.0, q.1 - at.1, q.2 - at.2)
}

/// The contents of `dst` after copying every element of `src`, moved by `at`, onto
/// those positions of `dst` that exist; positions that `dst` lacks are skipped.
pub open spec fn pasted<T>(
    dst: Map<(int, int, int), T>,
    src: Map<(int, int, int), T>,
    at: (int, int, int),
) -> Map<(int, int, int), T> {
    Map::new(
        |q: (int, int, int)| dst.dom().contains(q),
        |q: (int, int, int)|
            if src.dom().contains(unshifted(q, at)) {
                src[unshifted(q, at)]
            } else {
                dst[q]
            },
    )
}

/// The contents of `dst` after the first `k` positions of the walk over `region`
/// were copied from `src`, moved by `at`.
pub open spec fn pasted_upto<T>(
    dst: Map<(int, int, int), T>,
    src: Map<(int, int, int), T>,
    region: BoundingBox,
    at: (int, int, int),
    k: int,
) -> Map<(int, int, int), T> {
    Map::new(
        |q: (int, int, int)| dst.dom().contains(q),
        |q: (int, int, int)|
            if region.contains_pos(unshifted(q, at)) && region.index_of(unshifted(q, at)) < k {
                src[unshifted(q, at)]
            } else {
                dst[q]
            },
    )
}

/// Whether an insertion at `at` of a volume over `src` passes the bounds check against
/// `dst`: both corners of `src`, moved by `at`, lie inside `dst`.
pub open spec fn insert_fits(dst: BoundingBox, src: BoundingBox, at: (int, int, int)) -> bool {
    dst.contains_pos(shifted(pos(src.lo()), at)) && dst.contains_pos(shifted(pos(src.hi()), at))
}

/// `after` is what `f` chose for position `p`, or `before` where it chose nothing.
pub open spec fn chose_at<T, F: Fn([i64; 3]) -> Option<T>>(
    f: F,
    p: [i64; 3],
    before: T,
    after: T,
) -> bool {
    exists|r: Option<T>|
        #[trigger] f.ensures((p,), r) && after == match r {
            Some(v) => v,
            None => before,
        }
}

/// `after` is what `f` chose for position `p` holding `before`, or `before` where it
/// chose nothing.
pub open spec fn chose_from<T, F: Fn([i64; 3], &T) -> Option<T>>(
    f: F,
    p: [i64; 3],
    before: T,
    after: T,
) -> bool {
    exists|r: Option<T>|
        #[trigger] f.ensures((p, &before), r) && after == match r {
            Some(v) => v,
            None => before,
        }
}

/// Swapping `item` in at a position of a well-formed volume and then reading the same
/// position gives `item` back, and the swap hands back the item that a read just
/// before it gave; every other position keeps its item.
pub proof fn lemma_swap_round_trip<V: Volume>(v: V, c: (int, int, int), item: V::Item)
    requires
        v.wf(),
        v.region().contains_pos(c),
    ensures
        v.cells().insert(c, item)[c] == item,
        forall|q: (int, int, int)|
            q != c && v.region().contains_pos(q) ==> #[trigger] v.cells().insert(c, item)[q]
                == v.cells()[q],
        v.cells().insert(c, item).dom() == v.cells().dom(),
{
    v.lemma_wf();
    assert(v.cells().dom().contains(c));
    assert(v.cells().insert(c, item).dom() =~= v.cells().dom());
}

/// The bounds check of `insert` refuses every offset that would carry a position of
/// the source outside the target, so a refused insertion is the only outcome then.
pub proof fn lemma_escape_refused(
    dst: BoundingBox,
    src: BoundingBox,
    at: (int, int, int),
    p: (int, int, int),
)
    requires
        dst.wf(),
        src.wf(),
        src.contains_pos(p),
        !dst.contains_pos(shifted(p, at)),
    ensures
        !insert_fits(dst, src, at),
{
}

/// A bounded store of one item per position of a box.
///
/// Positions are absolute: a backend whose region does not start at the origin
/// translates them to its zero-based storage itself.
pub trait Volume: Sized {
    /// What is stored at each position.
    type Item;

    /// The internal invariant of the backend.
    spec fn wf(&self) -> bool;

    /// The positions the volume holds.
    spec fn region(&self) -> BoundingBox;

    /// The item at each position of the region.
    spec fn cells(&self) -> Map<(int, int, int), Self::Item>;

    /// A well-formed volume has a well-formed region and an item for exactly its positions.
    proof fn lemma_wf(&self)
        requires
            self.wf(),
        ensures
            self.region().wf(),
            forall|p: (int, int, int)|
                #[trigger] self.cells().dom().contains(p) <==> self.region().contains_pos(p),
    ;

    /// The region of the volume.
    fn bounding_box(&self) -> (r: BoundingBox)
        requires
            self.wf(),
        ensures
            r == self.region(),
    ;

    /// The item at a position of the region.
    fn slot(&self, p: [i64; 3]) -> (r: &Self::Item)
        requires
            self.wf(),
            self.region().contains_pos(pos(p)),
        ensures
            *r == self.cells()[pos(p)],
    ;

    /// Mutable access to the item at a position of the region.
    fn slot_mut(&mut self, p: [i64; 3]) -> (r: &mut Self::Item)
        requires
            old(self).wf(),
            old(self).region().contains_pos(pos(p)),
        ensures
            *r == old(self).cells()[pos(p)],
            final(self).wf(),
            final(self).region() == old(self).region(),
            final(self).cells() == old(self).cells().insert(pos(p), *final(r)),
    ;

    /// Puts `item` at a position of the region and hands back what was there.
    fn replace_slot(&mut self, p: [i64; 3], item: Self::Item) -> (r: Self::Item)
        requires
            old(self).wf(),
            old(self).region().contains_pos(pos(p)),
        ensures
            r == old(self).cells()[pos(p)],
            final(self).wf(),
            final(self).region() == old(self).region(),
            final(self).cells() == old(self).cells().insert(pos(p), item),
    ;

    /// The item at `idx`; `None` when `idx` lies outside the region.
    fn get<I: VolumeIdx>(&self, idx: I) -> (r: Option<&Self::Item>)
        requires
            self.wf(),
        ensures
            self.region().contains_pos(idx.coords()) ==> r == Some(&self.cells()[idx.coords()]),
            !self.region().contains_pos(idx.coords()) ==> r is None,
    {
        if self.bounding_box().contains(idx) {
            let w = idx.widen();
            Some(self.slot([w[0] as i64, w[1] as i64, w[2] as i64]))
        } else {
            None
        }
    }

    /// Mutable access to the item at `idx`; `None` when `idx` lies outside the region.
    fn get_mut<I: VolumeIdx>(&mut self, idx: I) -> (r: Option<&mut Self::Item>)
        requires
            old(self).wf(),
        ensures
            final(self).wf(),
            final(self).region() == old(self).region(),
            old(self).region().contains_pos(idx.coords()) ==> {
                &&& r matches Some(x)
                &&& *x == old(self).cells()[idx.coords()]
                &&& final(self).cells() == old(self).cells().insert(idx.coords(), *final(x))
            },
            !old(self).region().contains_pos(idx.coords()) ==> {
                &&& r is None
                &&& final(self).cells() == old(self).cells()
            },
    {
        if self.bounding_box().contains(idx) {
            let w = idx.widen();
            Some(self.slot_mut([w[0] as i64, w[1] as i64, w[2] as i64]))
        } else {
            None
        }
    }

    /// Replaces the item at `idx` by `item` and hands back the previous one; `None`, with
    /// nothing changed, when `idx` lies outside the region.
    fn swap<I: VolumeIdx>(&mut self, idx: I, item: Self::Item) -> (r: Option<Self::Item>)
        requires
            old(self).wf(),
        ensures
            final(self).wf(),
            final(self).region() == old(self).region(),
            old(self).region().contains_pos(idx.coords()) ==> {
                &&& r == Some(old(self).cells()[idx.coords()])
                &&& final(self).cells() == old(self).cells().insert(idx.coords(), item)
            },
            !old(self).region().contains_pos(idx.coords()) ==> {
                &&& r is None
                &&& final(self).cells() == old(self).cells()
            },
    {
        if self.bounding_box().contains(idx) {
            let w = idx.widen();
            Some(self.replace_slot([w[0] as i64, w[1] as i64, w[2] as i64], item))
        } else {
            None
        }
    }

    /// Puts `item` at `idx` and reports whether `idx` lay inside the region; nothing
    /// changes when it did not.
    fn set<I: VolumeIdx>(&mut self, idx: I, item: Self::Item) -> (r: bool)
        requires
            old(self).wf(),
        ensures
            final(self).wf(),
            final(self).region() == old(self).region(),
            r == old(self).region().contains_pos(idx.coords()),
            r ==> final(self).cells() == old(self).cells().insert(idx.coords(), item),
            !r ==> final(self).cells() == old(self).cells(),
    {
        self.swap(idx, item).is_some()
    }

    /// The item at a position given in either coordinate space; `None` when it lies
    /// outside the region.
    fn get_in<I: VolumeIdx>(&self, space: Space<I>) -> (r: Option<&Self::Item>)
        requires
            self.wf(),
        ensures
            self.region().contains_pos(space.world(self.region())) ==> r == Some(
                &self.cells()[space.world(self.region())],
            ),
            !self.region().contains_pos(space.world(self.region())) ==> r is None,
    {
        let bb = self.bounding_box();
        let w = space.to_world(&bb);
        if bb.contains_wide(w) {
            Some(self.slot([w[0] as i64, w[1] as i64, w[2] as i64]))
        } else {
            None
        }
    }

    /// Like `swap`, at a position given in either coordinate space.
    fn swap_in<I: VolumeIdx>(&mut self, space: Space<I>, item: Self::Item) -> (r: Option<
        Self::Item,
    >)
        requires
            old(self).wf(),
        ensures
            final(self).wf(),
            final(self).region() == old(self).region(),
            old(self).region().contains_pos(space.world(old(self).region())) ==> {
                &&& r == Some(old(self).cells()[space.world(old(self).region())])
                &&& final(self).cells() == old(self).cells().insert(
                    space.world(old(self).region()),
                    item,
                )
            },
            !old(self).region().contains_pos(space.world(old(self).region())) ==> {
                &&& r is None
                &&& final(self).cells() == old(self).cells()
            },
    {
        let bb = self.bounding_box();
        let w = space.to_world(&bb);
        if bb.contains_wide(w) {
            Some(self.replace_slot([w[0] as i64, w[1] as i64, w[2] as i64], item))
        } else {
            None
        }
    }

    /// Whether `idx` lies inside the region.
    fn contains<I: VolumeIdx>(&self, idx: I) -> (r: bool)
        requires
            self.wf(),
        ensures
            r == self.region().contains_pos(idx.coords()),
    {
        self.bounding_box().contains(idx)
    }

    /// A walk over every position of the region.
    fn iter_indices(&self) -> (r: BoundingBoxIterator)
        requires
            self.wf(),
        ensures
            r.wf(),
            r.region() == self.region(),
            r.emitted() == 0,
    {
        proof {
            self.lemma_wf();
        }
        self.bounding_box().into_iter()
    }
}

/// Algorithms over the access contract: rewriting a volume position by position, and
/// copying one volume into another.
pub trait VolumeExt: Volume {
    /// A walk over the items of the volume, in the order of its positions.
    fn iter(&self) -> (r: VolumeIterator<'_, Self>)
        requires
            self.wf(),
        ensures
            r.wf(),
            r.volume() == *self,
            r.indices().emitted() == 0,
    {
        VolumeIterator::new(self)
    }

    /// Gives every position `p` the item `f(p)` where that is `Some`; positions where it
    /// is `None` keep their item.
    fn idx_apply<F: Fn([i64; 3]) -> Option<Self::Item>>(&mut self, f: F)
        requires
            old(self).wf(),
            forall|p: [i64; 3]| f.requires((p,)),
        ensures
            final(self).wf(),
            final(self).region() == old(self).region(),
            forall|p: [i64; 3]|
                old(self).region().contains_pos(pos(p)) ==> chose_at(
                    f,
                    p,
                    old(self).cells()[pos(p)],
                    #[trigger] final(self).cells()[pos(p)],
                ),
    {
        proof {
            self.lemma_wf();
        }
        let ghost start = self.cells();
        let bb = self.bounding_box();
        let mut it = self.iter_indices();
        loop
            invariant
                self.wf(),
                self.region() == bb,
                bb.wf(),
                it.wf(),
                it.region() == bb,
                0 <= it.emitted() <= bb.cap(),
                forall|p: [i64; 3]| f.requires((p,)),
                forall|q: (int, int, int)|
                    #[trigger] self.cells().dom().contains(q) <==> bb.contains_pos(q),
                forall|q: (int, int, int)|
                    #[trigger] start.dom().contains(q) <==> bb.contains_pos(q),
                forall|p: [i64; 3]|
                    bb.contains_pos(pos(p)) && bb.index_of(pos(p)) >= it.emitted()
                        ==> #[trigger] self.cells()[pos(p)] == start[pos(p)],
                forall|p: [i64; 3]|
                    bb.contains_pos(pos(p)) && bb.index_of(pos(p)) < it.emitted() ==> chose_at(
                        f,
                        p,
                        start[pos(p)],
                        #[trigger] self.cells()[pos(p)],
                    ),
            ensures
                self.wf(),
                self.region() == bb,
                forall|p: [i64; 3]|
                    bb.contains_pos(pos(p)) ==> chose_at(
                        f,
                        p,
                        start[pos(p)],
                        #[trigger] self.cells()[pos(p)],
                    ),
            decreases bb.cap() - it.emitted(),
        {
            let ghost k = it.emitted();
            let ghost before = self.cells();
            proof {
                it.lemma_emitted_bounds();
            }
            match it.next() {
                None => {
                    proof {
                        assert forall|p: [i64; 3]| bb.contains_pos(pos(p)) implies chose_at(
                            f,
                            p,
                            start[pos(p)],
                            #[trigger] self.cells()[pos(p)],
                        ) by {
                            bb.lemma_index_bounds(pos(p));
                        }
                    }
                    break;
                },
                Some(p) => {
                    let r = f(p);
                    match r {
                        Some(v) => {
                            self.replace_slot(p, v);
                        },
                        None => {},
                    }
                    proof {
                        self.lemma_wf();
                        assert(chose_at(f, p, start[pos(p)], self.cells()[pos(p)]));
                        assert forall|p2: [i64; 3]|
                            bb.contains_pos(pos(p2)) && bb.index_of(pos(p2)) < k + 1
                            implies chose_at(
                            f,
                            p2,
                            start[pos(p2)],
                            #[trigger] self.cells()[pos(p2)],
                        ) by {
                            if bb.index_of(pos(p2)) == k {
                                bb.lemma_index_injective(pos(p2), pos(p));
                                assert(p2 =~= p);
                            }
                        }
                        assert forall|p2: [i64; 3]|
                            bb.contains_pos(pos(p2)) && bb.index_of(pos(p2)) >= k + 1
                            implies #[trigger] self.cells()[pos(p2)] == start[pos(p2)] by {
                            if pos(p2) == pos(p) {
                                assert(bb.index_of(pos(p2)) == k);
                            }
                        }
                    }
                },
            }
        }
    }

    /// Gives every position the item that `f` chooses from the position and its current
    /// item, where `f` chooses one; the other positions keep their item.
    fn apply<F: Fn([i64; 3], &Self::Item) -> Option<Self::Item>>(&mut self, f: F)
        requires
            old(self).wf(),
            forall|p: [i64; 3], x: &Self::Item| f.requires((p, x)),
        ensures
            final(self).wf(),
            final(self).region() == old(self).region(),
            forall|p: [i64; 3]|
                old(self).region().contains_pos(pos(p)) ==> chose_from(
                    f,
                    p,
                    old(self).cells()[pos(p)],
                    #[trigger] final(self).cells()[pos(p)],
                ),
    {
        proof {
            self.lemma_wf();
        }
        let ghost start = self.cells();
        let bb = self.bounding_box();
        let mut it = self.iter_indices();
        loop
            invariant
                self.wf(),
                self.region() == bb,
                bb.wf(),
                it.wf(),
                it.region() == bb,
                0 <= it.emitted() <= bb.cap(),
                forall|p: [i64; 3], x: &Self::Item| f.requires((p, x)),
                forall|q: (int, int, int)|
                    #[trigger] self.cells().dom().contains(q) <==> bb.contains_pos(q),
                forall|q: (int, int, int)|
                    #[trigger] start.dom().contains(q) <==> bb.contains_pos(q),
                forall|p: [i64; 3]|
                    bb.contains_pos(pos(p)) && bb.index_of(pos(p)) >= it.emitted()
                        ==> #[trigger] self.cells()[pos(p)] == start[pos(p)],
                forall|p: [i64; 3]|
                    bb.contains_pos(pos(p)) && bb.index_of(pos(p)) < it.emitted() ==> chose_from(
                        f,
                        p,
                        start[pos(p)],
                        #[trigger] self.cells()[pos(p)],
                    ),
            ensures
                self.wf(),
                self.region() == bb,
                forall|p: [i64; 3]|
                    bb.contains_pos(pos(p)) ==> chose_from(
                        f,
                        p,
                        start[pos(p)],
                        #[trigger] self.cells()[pos(p)],
                    ),
            decreases bb.cap() - it.emitted(),
        {
            let ghost k = it.emitted();
            proof {
                it.lemma_emitted_bounds();
            }
            match it.next() {
                None => {
                    proof {
                        assert forall|p: [i64; 3]| bb.contains_pos(pos(p)) implies chose_from(
                            f,
                            p,
                            start[pos(p)],
                            #[trigger] self.cells()[pos(p)],
                        ) by {
                            bb.lemma_index_bounds(pos(p));
                        }
                    }
                    break;
                },
                Some(p) => {
                    let r = f(p, self.slot(p));
                    match r {
                        Some(v) => {
                            self.replace_slot(p, v);
                        },
                        None => {},
                    }
                    proof {
                        self.lemma_wf();
                        assert(chose_from(f, p, start[pos(p)], self.cells()[pos(p)]));
                        assert forall|p2: [i64; 3]|
                            bb.contains_pos(pos(p2)) && bb.index_of(pos(p2)) < k + 1
                            implies chose_from(
                            f,
                            p2,
                            start[pos(p2)],
                            #[trigger] self.cells()[pos(p2)],
                        ) by {
                            if bb.index_of(pos(p2)) == k {
                                bb.lemma_index_injective(pos(p2), pos(p));
                                assert(p2 =~= p);
                            }
                        }
                        assert forall|p2: [i64; 3]|
                            bb.contains_pos(pos(p2)) && bb.index_of(pos(p2)) >= k + 1
                            implies #[trigger] self.cells()[pos(p2)] == start[pos(p2)] by {
                            if pos(p2) == pos(p) {
                                assert(bb.index_of(pos(p2)) == k);
                            }
                        }
                    }
                },
            }
        }
    }

    /// Gives every position the item `item`.
    fn fill(&mut self, item: Self::Item) where Self::Item: Copy
        requires
            old(self).wf(),
        ensures
            final(self).wf(),
            final(self).region() == old(self).region(),
            forall|q: (int, int, int)|
                old(self).region().contains_pos(q) ==> #[trigger] final(self).cells()[q] == item,
    {
        let ghost bb = self.region();
        self.idx_apply(|p: [i64; 3]| -> (r: Option<Self::Item>)
            ensures
                r == Some(item),
            { Some(item) });
        proof {
            assert forall|q: (int, int, int)| bb.contains_pos(q) implies #[trigger] self.cells()[q]
                == item by {
                let p: [i64; 3] = [q.0 as i64, q.1 as i64, q.2 as i64];
                assert(pos(p) == q);
            }
        }
    }

    /// Copies every element of `other`, moved by `at`, into this volume, which keeps
    /// its region. Refused with nothing changed unless both corners of `other`'s region,
    /// moved by `at`, lie inside this volume's region.
    fn insert<I: VolumeIdx, V: Volume<Item = Self::Item>>(&mut self, at: I, other: &V) -> (r:
        Result<(), InsertError>) where Self::Item: Copy
        requires
            old(self).wf(),
            other.wf(),
        ensures
            final(self).wf(),
            final(self).region() == old(self).region(),
            r is Ok <==> insert_fits(old(self).region(), other.region(), at.coords()),
            r is Ok ==> final(self).cells() == pasted(
                old(self).cells(),
                other.cells(),
                at.coords(),
            ),
            r matches Err(e) ==> e == InsertError::VolumeEscapesBounds && final(self).cells()
                == old(self).cells(),
    {
        let bb = self.bounding_box();
        let src = other.bounding_box();
        let a = at.widen();
        let lo = src.min();
        let hi = src.max();
        let first = [lo[0] as i128 + a[0], lo[1] as i128 + a[1], lo[2] as i128 + a[2]];
        let last = [hi[0] as i128 + a[0], hi[1] as i128 + a[1], hi[2] as i128 + a[2]];
        if bb.contains_wide(first) && bb.contains_wide(last) {
            self.insert_anyways(at, other);
            Ok(())
        } else {
            Err(InsertError::VolumeEscapesBounds)
        }
    }

    /// Copies every element of `other`, moved by `at`, into this volume wherever the
    /// destination lies inside it; destinations outside are skipped.
    fn insert_anyways<I: VolumeIdx, V: Volume<Item = Self::Item>>(&mut self, at: I, other: &V) where
        Self::Item: Copy
        requires
            old(self).wf(),
            other.wf(),
        ensures
            final(self).wf(),
            final(self).region() == old(self).region(),
            final(self).cells() == pasted(old(self).cells(), other.cells(), at.coords()),
    {
        proof {
            self.lemma_wf();
            other.lemma_wf();
        }
        let ghost start = self.cells();
        let ghost off = at.coords();
        let bb = self.bounding_box();
        let src = other.bounding_box();
        let a = at.widen();
        let mut it = other.iter_indices();
        assert(self.cells() =~= pasted_upto(start, other.cells(), src, off, 0));
        loop
            invariant
                self.wf(),
                other.wf(),
                self.region() == bb,
                other.region() == src,
                src.wf(),
                it.wf(),
                it.region() == src,
                0 <= it.emitted() <= src.cap(),
                (a[0] as int, a[1] as int, a[2] as int) == off,
                is_narrow(off),
                forall|p: (int, int, int)|
                    #[trigger] start.dom().contains(p) <==> bb.contains_pos(p),
                forall|p: (int, int, int)|
                    #[trigger] other.cells().dom().contains(p) <==> src.contains_pos(p),
                self.cells() == pasted_upto(start, other.cells(), src, off, it.emitted()),
            ensures
                self.wf(),
                self.region() == bb,
                self.cells() == pasted_upto(start, other.cells(), src, off, src.cap()),
            decreases src.cap() - it.emitted(),
        {
            let ghost k = it.emitted();
            let ghost before = self.cells();
            proof {
                it.lemma_emitted_bounds();
            }
            match it.next() {
                None => {
                    break;
                },
                Some(p) => {
                    let q = [p[0] as i128 + a[0], p[1] as i128 + a[1], p[2] as i128 + a[2]];
                    if bb.contains_wide(q) {
                        let item = *other.slot(p);
                        let t = [q[0] as i64, q[1] as i64, q[2] as i64];
                        self.replace_slot(t, item);
                    }
                    proof {
                        assert forall|x: (int, int, int)|
                            #![trigger pasted_upto(start, other.cells(), src, off, k + 1)[x]]
                            start.dom().contains(x) implies pasted_upto(
                            start,
                            other.cells(),
                            src,
                            off,
                            k + 1,
                        )[x] == self.cells()[x] by {
                            let y = unshifted(x, off);
                            if src.contains_pos(y) && src.index_of(y) == k {
                                src.lemma_index_injective(y, pos(p));
                            }
                        }
                        assert(self.cells() =~= pasted_upto(start, other.cells(), src, off, k + 1));
                    }
                },
            }
        }
        proof {
            assert forall|x: (int, int, int)| #[trigger]
                start.dom().contains(x) implies pasted(start, other.cells(), off)[x]
                == self.cells()[x] by {
                let y = unshifted(x, off);
                if src.contains_pos(y) {
                    src.lemma_index_bounds(y);
                }
            }
            assert(self.cells() =~= pasted(start, other.cells(), off));
        }
    }
}

impl<T: Volume> VolumeExt for T {

}

} // verus!

verus! {

/// A walk over the items of a volume, in the order of its positions.
pub struct VolumeIterator<'a, V: Volume> {
    volume: &'a V,
    bb_iterator: BoundingBoxIterator,
}

impl<'a, V: Volume> VolumeIterator<'a, V> {
    /// The volume being walked.
    pub closed spec fn volume(self) -> V {
        *self.volume
    }

    /// The walk over the positions, which decides which item comes next.
    pub closed spec fn indices(self) -> BoundingBoxIterator {
        self.bb_iterator
    }

    /// The volume is well formed and the walk is over its region.
    pub open spec fn wf(self) -> bool {
        &&& self.volume().wf()
        &&& self.indices().wf()
        &&& self.indices().region() == self.volume().region()
    }

    /// Starts a walk over the items of `volume`.
    pub fn new(volume: &'a V) -> (r: Self)
        requires
            volume.wf(),
        ensures
            r.wf(),
            r.volume() == *volume,
            r.indices().emitted() == 0,
    {
        VolumeIterator { volume, bb_iterator: volume.iter_indices() }
    }

    /// Hands out the item at the next position, or `None` once every item was handed out.
    pub fn next(&mut self) -> (r: Option<&'a V::Item>)
        requires
            old(self).wf(),
        ensures
            final(self).wf(),
            final(self).volume() == old(self).volume(),
            final(self).indices().region() == old(self).indices().region(),
            old(self).indices().emitted() < old(self).volume().region().cap() ==> {
                &&& r matches Some(x)
                &&& *x == old(self).volume().cells()[old(self).volume().region().position_at(
                    old(self).indices().emitted(),
                )]
                &&& final(self).indices().emitted() == old(self).indices().emitted() + 1
            },
            old(self).indices().emitted() >= old(self).volume().region().cap() ==> {
                &&& r is None
                &&& final(self).indices().emitted() == old(self).indices().emitted()
            },
    {
        match self.bb_iterator.next() {
            Some(p) => Some(self.volume.slot(p)),
            None => None,
        }
    }
}

} // verus!
