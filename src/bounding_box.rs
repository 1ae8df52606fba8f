//! Axis-aligned integer boxes, half-open on every axis, and the walk over their positions.
use vstd::prelude::*;

use crate::arith::{lemma_mixed_bounds, lemma_mixed_unique, lemma_mul_succ};
use crate::index::{fits_i64, pos, VolumeIdx};
use crate::arith::{lemma_div_lower, lemma_div_strict_upper};
use vstd::arithmetic::div_mod::{lemma_div_denominator, lemma_fundamental_div_mod, lemma_mod_bound};

verus! {

/// The lesser of two integers.
pub open spec fn lesser(a: int, b: int) -> int {
    if a <= b {
        a
    } else {
        b
    }
}

/// The greater of two integers.
pub open spec fn greater(a: int, b: int) -> int {
    if a <= b {
        b
    } else {
        a
    }
}

/// The box whose corners are `min` and `max`, taken as they are.
pub closed spec fn box_from(min: [i64; 3], max: [i64; 3]) -> BoundingBox {
    BoundingBox { min, max }
}

/// The corners of `box_from(min, max)` are `min` and `max`.
pub proof fn lemma_box_from(min: [i64; 3], max: [i64; 3])
    ensures
        box_from(min, max).lo() == min,
        box_from(min, max).hi() == max,
{
}

/// An axis-aligned box of integer positions, holding `min` and excluding `max` on every axis.
#[derive(Debug, Clone, Copy, PartialEq, Eq)]
pub struct BoundingBox {
    min: [i64; 3],
    max: [i64; 3],
}

impl BoundingBox {
    /// The lowest corner.
    pub closed spec fn lo(self) -> [i64; 3] {
        self.min
    }

    /// The corner just past the highest position.
    pub closed spec fn hi(self) -> [i64; 3] {
        self.max
    }

    /// `min` lies at or below `max` on every axis.
    pub open spec fn wf(self) -> bool {
        &&& self.lo()[0] <= self.hi()[0]
        &&& self.lo()[1] <= self.hi()[1]
        &&& self.lo()[2] <= self.hi()[2]
    }

    /// The extent along one axis.
    pub open spec fn span(self, axis: int) -> int {
        self.hi()[axis] - self.lo()[axis]
    }

    /// The number of positions in the box.
    pub open spec fn cap(self) -> int {
        self.span(0) * self.span(1) * self.span(2)
    }

    /// Whether some axis has no extent, so that the box holds no position.
    pub open spec fn is_degenerate(self) -> bool {
        self.span(0) == 0 || self.span(1) == 0 || self.span(2) == 0
    }

    /// Whether `p` lies in `[min, max)` on every axis.
    pub open spec fn contains_pos(self, p: (int, int, int)) -> bool {
        &&& self.lo()[0] <= p.0 < self.hi()[0]
        &&& self.lo()[1] <= p.1 < self.hi()[1]
        &&& self.lo()[2] <= p.2 < self.hi()[2]
    }

    /// Whether the two boxes share a position under half-open bounds.
    pub open spec fn overlaps_box(self, rhs: BoundingBox) -> bool {
        &&& self.lo()[0] < rhs.hi()[0] && self.hi()[0] > rhs.lo()[0]
        &&& self.lo()[1] < rhs.hi()[1] && self.hi()[1] > rhs.lo()[1]
        &&& self.lo()[2] < rhs.hi()[2] && self.hi()[2] > rhs.lo()[2]
    }

    /// The place of `p` in the walk over the box: x varies fastest, z slowest.
    pub open spec fn index_of(self, p: (int, int, int)) -> int {
        (p.0 - self.lo()[0]) + (p.1 - self.lo()[1]) * self.span(0) + (p.2 - self.lo()[2]) * (
        self.span(0) * self.span(1))
    }

    /// Every position of a box has a place in the walk below the capacity.
    pub proof fn lemma_index_bounds(self, p: (int, int, int))
        requires
            self.wf(),
            self.contains_pos(p),
        ensures
            0 <= self.index_of(p) < self.cap(),
    {
        let sx = self.span(0);
        let sy = self.span(1);
        let sz = self.span(2);
        lemma_mixed_bounds(p.0 - self.lo()[0], p.1 - self.lo()[1], sx, sy);
        lemma_mixed_bounds(
            (p.0 - self.lo()[0]) + (p.1 - self.lo()[1]) * sx,
            p.2 - self.lo()[2],
            sx * sy,
            sz,
        );
    }

    /// Two positions of a box with the same place in the walk are the same position.
    pub proof fn lemma_index_injective(self, p: (int, int, int), q: (int, int, int))
        requires
            self.wf(),
            self.contains_pos(p),
            self.contains_pos(q),
            self.index_of(p) == self.index_of(q),
        ensures
            p == q,
    {
        let sx = self.span(0);
        let sy = self.span(1);
        lemma_mixed_bounds(p.0 - self.lo()[0], p.1 - self.lo()[1], sx, sy);
        lemma_mixed_bounds(q.0 - self.lo()[0], q.1 - self.lo()[1], sx, sy);
        lemma_mixed_unique(
            (p.0 - self.lo()[0]) + (p.1 - self.lo()[1]) * sx,
            p.2 - self.lo()[2],
            (q.0 - self.lo()[0]) + (q.1 - self.lo()[1]) * sx,
            q.2 - self.lo()[2],
            sx * sy,
        );
        lemma_mixed_unique(
            p.0 - self.lo()[0],
            p.1 - self.lo()[1],
            q.0 - self.lo()[0],
            q.1 - self.lo()[1],
            sx,
        );
    }

    /// A box never holds its `max` corner, and holds its `min` corner exactly when no
    /// axis is empty.
    pub proof fn lemma_corners(self)
        requires
            self.wf(),
        ensures
            !self.contains_pos(pos(self.hi())),
            self.contains_pos(pos(self.lo())) <==> !self.is_degenerate(),
    {
    }

    /// The walk over a box hands out each of its positions exactly once: every position
    /// has a place below the capacity, no two positions share a place, and every place
    /// below the capacity belongs to a position.
    pub proof fn lemma_walk_exact(self)
        requires
            self.wf(),
        ensures
            forall|k: int|
                0 <= k < self.cap() ==> self.contains_pos(#[trigger] self.position_at(k))
                    && self.index_of(self.position_at(k)) == k,
            forall|p: (int, int, int)|
                self.contains_pos(p) ==> 0 <= #[trigger] self.index_of(p) < self.cap(),
            forall|p: (int, int, int), q: (int, int, int)|
                self.contains_pos(p) && self.contains_pos(q) && #[trigger] self.index_of(p)
                    == #[trigger] self.index_of(q) ==> p == q,
    {
        assert forall|p: (int, int, int)|
            self.contains_pos(p) implies 0 <= #[trigger] self.index_of(p) < self.cap() by {
            self.lemma_index_bounds(p);
        }
        assert forall|p: (int, int, int), q: (int, int, int)|
            self.contains_pos(p) && self.contains_pos(q) && #[trigger] self.index_of(p)
                == #[trigger] self.index_of(q) implies p == q by {
            self.lemma_index_injective(p, q);
        }
        assert forall|k: int| 0 <= k < self.cap() implies self.contains_pos(
            #[trigger] self.position_at(k),
        ) && self.index_of(self.position_at(k)) == k by {
            self.lemma_position_at(k);
        }
    }

    /// Two boxes with the same corners are the same box.
    pub proof fn lemma_corners_determine(self, other: BoundingBox)
        requires
            self.lo() == other.lo() || pos(self.lo()) == pos(other.lo()),
            self.hi() == other.hi() || pos(self.hi()) == pos(other.hi()),
        ensures
            self == other,
    {
        assert(self.min =~= other.min);
        assert(self.max =~= other.max);
    }

    /// The position at place `k` of the walk.
    pub open spec fn position_at(self, k: int) -> (int, int, int) {
        (
            self.lo()[0] + k % self.span(0),
            self.lo()[1] + (k / self.span(0)) % self.span(1),
            self.lo()[2] + k / (self.span(0) * self.span(1)),
        )
    }

    /// Every place below the capacity is the place of exactly one position: the one
    /// `position_at` gives.
    pub proof fn lemma_position_at(self, k: int)
        requires
            self.wf(),
            0 <= k < self.cap(),
        ensures
            self.contains_pos(self.position_at(k)),
            self.index_of(self.position_at(k)) == k,
    {
        let sx = self.span(0);
        let sy = self.span(1);
        let sz = self.span(2);
        assert(sx > 0 && sy > 0 && sz > 0) by (nonlinear_arith)
            requires
                0 <= k < sx * sy * sz,
                sx >= 0,
                sy >= 0,
                sz >= 0,
        ;
        let m = k / sx;
        lemma_fundamental_div_mod(k, sx);
        lemma_fundamental_div_mod(m, sy);
        lemma_div_denominator(k, sx, sy);
        lemma_mod_bound(k, sx);
        lemma_mod_bound(m, sy);
        lemma_div_lower(k, sx);
        lemma_div_lower(m, sy);
        assert(k / (sx * sy) < sz) by {
            lemma_div_strict_upper(k, sx * sy, sz);
        }
        assert(k == k % sx + (m % sy) * sx + (m / sy) * (sx * sy)) by (nonlinear_arith)
            requires
                k == sx * m + k % sx,
                m == sy * (m / sy) + m % sy,
        ;
    }

    /// Builds the box spanned by two corners given in any order: its `min` and `max`
    /// are the componentwise minimum and maximum of the corners.
    pub fn new<N: VolumeIdx>(pos1: N, pos2: N) -> (r: Self)
        requires
            fits_i64(pos1.coords()),
            fits_i64(pos2.coords()),
        ensures
            r.wf(),
            pos(r.lo()) == (
                lesser(pos1.coords().0, pos2.coords().0),
                lesser(pos1.coords().1, pos2.coords().1),
                lesser(pos1.coords().2, pos2.coords().2),
            ),
            pos(r.hi()) == (
                greater(pos1.coords().0, pos2.coords().0),
                greater(pos1.coords().1, pos2.coords().1),
                greater(pos1.coords().2, pos2.coords().2),
            ),
    {
        let a = pos1.widen();
        let b = pos2.widen();
        let min = [
            if a[0] <= b[0] { a[0] as i64 } else { b[0] as i64 },
            if a[1] <= b[1] { a[1] as i64 } else { b[1] as i64 },
            if a[2] <= b[2] { a[2] as i64 } else { b[2] as i64 },
        ];
        let max = [
            if a[0] <= b[0] { b[0] as i64 } else { a[0] as i64 },
            if a[1] <= b[1] { b[1] as i64 } else { a[1] as i64 },
            if a[2] <= b[2] { b[2] as i64 } else { a[2] as i64 },
        ];
        BoundingBox { min, max }
    }

    /// Builds the box from the origin to `dimensions`, expanding into +x, +y and +z.
    pub fn new_origin<N: VolumeIdx>(dimensions: N) -> (r: Self)
        requires
            fits_i64(dimensions.coords()),
            dimensions.coords().0 >= 0,
            dimensions.coords().1 >= 0,
            dimensions.coords().2 >= 0,
        ensures
            r.wf(),
            pos(r.lo()) == (0int, 0int, 0int),
            pos(r.hi()) == dimensions.coords(),
            r == box_from(
                [0, 0, 0],
                [
                    dimensions.coords().0 as i64,
                    dimensions.coords().1 as i64,
                    dimensions.coords().2 as i64,
                ],
            ),
    {
        let d = dimensions.widen();
        BoundingBox { min: [0, 0, 0], max: [d[0] as i64, d[1] as i64, d[2] as i64] }
    }

    /// The number of positions in the box, as the product of its three spans.
    pub fn capacity(&self) -> (r: i128)
        requires
            self.wf(),
            self.cap() <= i128::MAX,
        ensures
            r == self.cap(),
    {
        let x = self.max[0] as i128 - self.min[0] as i128;
        let y = self.max[1] as i128 - self.min[1] as i128;
        let z = self.max[2] as i128 - self.min[2] as i128;
        if x == 0 || y == 0 || z == 0 {
            assert(self.cap() == 0) by (nonlinear_arith)
                requires
                    x == 0 || y == 0 || z == 0,
                    self.cap() == x * y * z,
            ;
            0
        } else {
            assert(x * y <= x * y * z) by (nonlinear_arith)
                requires
                    x > 0,
                    y > 0,
                    z > 0,
            ;
            x * y * z
        }
    }

    /// Whether `idx` lies in `[min, max)` on every axis.
    pub fn contains<N: VolumeIdx>(&self, idx: N) -> (r: bool)
        ensures
            r == self.contains_pos(idx.coords()),
    {
        self.contains_wide(idx.widen())
    }

    /// Whether the position `w` lies in `[min, max)` on every axis.
    pub(crate) fn contains_wide(&self, w: [i128; 3]) -> (r: bool)
        ensures
            r == self.contains_pos((w[0] as int, w[1] as int, w[2] as int)),
    {
        self.min[0] as i128 <= w[0] && w[0] < self.max[0] as i128 && self.min[1] as i128 <= w[1]
            && w[1] < self.max[1] as i128 && self.min[2] as i128 <= w[2] && w[2] < self.max[2]
            as i128
    }

    /// The box of the positions that both boxes hold; `None` when they do not overlap.
    pub fn intersection(&self, rhs: &BoundingBox) -> (r: Option<Self>)
        requires
            self.wf(),
            rhs.wf(),
        ensures
            r is Some <==> self.overlaps_box(*rhs),
            r matches Some(b) ==> {
                &&& b.wf()
                &&& pos(b.lo()) == (
                    greater(self.lo()[0] as int, rhs.lo()[0] as int),
                    greater(self.lo()[1] as int, rhs.lo()[1] as int),
                    greater(self.lo()[2] as int, rhs.lo()[2] as int),
                )
                &&& pos(b.hi()) == (
                    lesser(self.hi()[0] as int, rhs.hi()[0] as int),
                    lesser(self.hi()[1] as int, rhs.hi()[1] as int),
                    lesser(self.hi()[2] as int, rhs.hi()[2] as int),
                )
            },
    {
        if !self.overlaps(rhs) {
            return None;
        }
        let pos1 = [
            if self.min[0] <= rhs.min[0] { rhs.min[0] } else { self.min[0] },
            if self.min[1] <= rhs.min[1] { rhs.min[1] } else { self.min[1] },
            if self.min[2] <= rhs.min[2] { rhs.min[2] } else { self.min[2] },
        ];
        let pos2 = [
            if self.max[0] <= rhs.max[0] { self.max[0] } else { rhs.max[0] },
            if self.max[1] <= rhs.max[1] { self.max[1] } else { rhs.max[1] },
            if self.max[2] <= rhs.max[2] { self.max[2] } else { rhs.max[2] },
        ];
        Some(Self::new(pos1, pos2))
    }

    /// Whether the two boxes share a position.
    pub fn overlaps(&self, rhs: &BoundingBox) -> (r: bool)
        ensures
            r == self.overlaps_box(*rhs),
    {
        self.min[0] < rhs.max[0] && self.max[0] > rhs.min[0] && self.min[1] < rhs.max[1]
            && self.max[1] > rhs.min[1] && self.min[2] < rhs.max[2] && self.max[2] > rhs.min[2]
    }

    /// The corner just past the highest position.
    pub fn max(&self) -> (r: [i64; 3])
        ensures
            r == self.hi(),
    {
        self.max
    }

    /// The lowest corner.
    pub fn min(&self) -> (r: [i64; 3])
        ensures
            r == self.lo(),
    {
        self.min
    }

    /// Length of the x side.
    pub fn x_span(&self) -> (r: i64)
        requires
            self.wf(),
            self.span(0) <= i64::MAX,
        ensures
            r == self.span(0),
    {
        (self.max[0] as i128 - self.min[0] as i128) as i64
    }

    /// Length of the y side.
    pub fn y_span(&self) -> (r: i64)
        requires
            self.wf(),
            self.span(1) <= i64::MAX,
        ensures
            r == self.span(1),
    {
        (self.max[1] as i128 - self.min[1] as i128) as i64
    }

    /// Length of the z side.
    pub fn z_span(&self) -> (r: i64)
        requires
            self.wf(),
            self.span(2) <= i64::MAX,
        ensures
            r == self.span(2),
    {
        (self.max[2] as i128 - self.min[2] as i128) as i64
    }

    /// The three side lengths, as `[x, y, z]`.
    pub fn dimensions(&self) -> (r: [i64; 3])
        requires
            self.wf(),
            self.span(0) <= i64::MAX,
            self.span(1) <= i64::MAX,
            self.span(2) <= i64::MAX,
        ensures
            r[0] == self.span(0),
            r[1] == self.span(1),
            r[2] == self.span(2),
    {
        [self.x_span(), self.y_span(), self.z_span()]
    }

    /// A walk over every position of the box, starting at its first place.
    pub fn into_iter(self) -> (r: BoundingBoxIterator)
        requires
            self.wf(),
        ensures
            r.wf(),
            r.region() == self,
            r.emitted() == 0,
    {
        let r = BoundingBoxIterator { current: self.min, bounding_box: self };
        if !self.is_empty() {
            assert(self.index_of(pos(self.min)) == 0) by (nonlinear_arith)
                requires
                    self.index_of(pos(self.min)) == 0 + 0 * self.span(0) + 0 * (self.span(0)
                        * self.span(1)),
            ;
        } else {
            assert(self.cap() == 0) by (nonlinear_arith)
                requires
                    self.is_degenerate(),
                    self.cap() == self.span(0) * self.span(1) * self.span(2),
            ;
        }
        r
    }

    /// Whether the box holds no position.
    pub fn is_empty(&self) -> (r: bool)
        ensures
            r == self.is_degenerate(),
    {
        self.min[0] == self.max[0] || self.min[1] == self.max[1] || self.min[2] == self.max[2]
    }
}

/// A walk over the positions of a box: x varies fastest, then y, then z.
pub struct BoundingBoxIterator {
    current: [i64; 3],
    bounding_box: BoundingBox,
}

impl BoundingBoxIterator {
    /// The box being walked.
    pub closed spec fn region(self) -> BoundingBox {
        self.bounding_box
    }

    /// How many positions the walk has handed out so far.
    pub closed spec fn emitted(self) -> int {
        if self.bounding_box.contains_pos(pos(self.current)) {
            self.bounding_box.index_of(pos(self.current))
        } else {
            self.bounding_box.cap()
        }
    }

    /// The cursor is on a position of the box, or past the end.
    pub closed spec fn wf(self) -> bool {
        let b = self.bounding_box;
        &&& b.wf()
        &&& {
            ||| b.contains_pos(pos(self.current))
            ||| b.is_degenerate()
            ||| (self.current[0] == b.lo()[0] && self.current[1] == b.lo()[1] && self.current[2]
                == b.hi()[2])
        }
    }

    /// The walk never hands out more positions than the box holds.
    pub proof fn lemma_emitted_bounds(self)
        requires
            self.wf(),
        ensures
            0 <= self.emitted() <= self.region().cap(),
    {
        let b = self.bounding_box;
        if b.contains_pos(pos(self.current)) {
            b.lemma_index_bounds(pos(self.current));
        } else {
            assert(0 <= b.cap()) by (nonlinear_arith)
                requires
                    b.wf(),
                    b.cap() == b.span(0) * b.span(1) * b.span(2),
            ;
        }
    }

    /// Hands out the next position of the walk, or `None` once every position was handed out.
    pub fn next(&mut self) -> (r: Option<[i64; 3]>)
        requires
            old(self).wf(),
        ensures
            final(self).wf(),
            final(self).region() == old(self).region(),
            old(self).emitted() < old(self).region().cap() ==> {
                &&& r matches Some(p)
                &&& pos(p) == old(self).region().position_at(old(self).emitted())
                &&& old(self).region().contains_pos(pos(p))
                &&& old(self).region().index_of(pos(p)) == old(self).emitted()
                &&& final(self).emitted() == old(self).emitted() + 1
            },
            old(self).emitted() >= old(self).region().cap() ==> {
                &&& r is None
                &&& final(self).emitted() == old(self).emitted()
            },
    {
        proof {
            self.lemma_emitted_bounds();
        }
        let bb = self.bounding_box;
        let c = self.current;
        if !bb.contains(c) {
            return None;
        }
        proof {
            bb.lemma_index_bounds(pos(c));
            bb.lemma_position_at(bb.index_of(pos(c)));
            bb.lemma_index_injective(pos(c), bb.position_at(bb.index_of(pos(c))));
        }
        let ghost sx = bb.span(0);
        let ghost sy = bb.span(1);
        let ghost sz = bb.span(2);
        if c[0] + 1 < bb.max[0] {
            self.current = [c[0] + 1, c[1], c[2]];
            assert(bb.index_of(pos(self.current)) == bb.index_of(pos(c)) + 1);
        } else if c[1] + 1 < bb.max[1] {
            self.current = [bb.min[0], c[1] + 1, c[2]];
            proof {
                lemma_mul_succ(c[1] - bb.min[1], sx);
                assert(bb.index_of(pos(self.current)) == bb.index_of(pos(c)) + 1);
            }
        } else {
            self.current = [bb.min[0], bb.min[1], c[2] + 1];
            proof {
                assert(sz * (sx * sy) == sx * sy * sz) by (nonlinear_arith);
                let a = c[0] - bb.min[0];
                let b = c[1] - bb.min[1];
                let d = c[2] - bb.min[2];
                assert(a + b * sx + d * (sx * sy) + 1 == (d + 1) * (sx * sy)) by (nonlinear_arith)
                    requires
                        a + 1 == sx,
                        b + 1 == sy,
                ;
                assert(0 + 0 * sx + (d + 1) * (sx * sy) == (d + 1) * (sx * sy))
                    by (nonlinear_arith);
                assert(bb.index_of(pos(self.current)) == bb.index_of(pos(c)) + 1);
            }
        }
        Some(c)
    }
}

} // verus!
