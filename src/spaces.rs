//! Positions given either relative to a region's lowest corner or in absolute coordinates.
use vstd::prelude::*;

use crate::bounding_box::BoundingBox;
use crate::index::{pos, VolumeIdx};

verus! {

/// A position, tagged with the coordinate space it is written in.
pub enum Space<Idx: VolumeIdx> {
    /// Relative to the lowest corner of the region it addresses.
    Localspace(Idx),
    /// Absolute.
    Worldspace(Idx),
}

impl<Idx: VolumeIdx> Space<Idx> {
    /// The absolute position named in a region whose lowest corner is `region.lo()`.
    pub open spec fn world(self, region: BoundingBox) -> (int, int, int) {
        match self {
            Space::Localspace(i) => (
                i.coords().0 + region.lo()[0],
                i.coords().1 + region.lo()[1],
                i.coords().2 + region.lo()[2],
            ),
            Space::Worldspace(i) => i.coords(),
        }
    }

    /// Translates the position to absolute coordinates, subtracting nothing from a
    /// world position and adding the region's lowest corner to a local one.
    pub fn to_world(&self, region: &BoundingBox) -> (r: [i128; 3])
        ensures
            (r[0] as int, r[1] as int, r[2] as int) == self.world(*region),
    {
        match self {
            Space::Localspace(i) => {
                let w = i.widen();
                let lo = region.min();
                [w[0] + lo[0] as i128, w[1] + lo[1] as i128, w[2] + lo[2] as i128]
            },
            Space::Worldspace(i) => i.widen(),
        }
    }
}

} // verus!
