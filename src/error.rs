//! Recoverable failures of the volume operations.
use vstd::prelude::*;

use crate::bounding_box::BoundingBox;

verus! {

/// Why an insertion of one volume into another was refused.
#[derive(Debug, Clone, Copy, PartialEq, Eq)]
pub enum InsertError {
    /// Part of the inserted volume would land outside the target volume.
    VolumeEscapesBounds,
}

/// A region that was asked to sit inside a volume does not fit in it.
#[derive(Debug, Clone, Copy, PartialEq, Eq)]
pub struct OversizedBounds {
    pub(crate) provided: BoundingBox,
    pub(crate) expected: Option<BoundingBox>,
}

impl OversizedBounds {
    /// The region that was refused.
    pub closed spec fn provided_spec(self) -> BoundingBox {
        self.provided
    }

    /// The region it had to fit in, when known.
    pub closed spec fn expected_spec(self) -> Option<BoundingBox> {
        self.expected
    }

    /// Records that `provided` does not fit in `expected`.
    pub fn new(provided: BoundingBox, expected: Option<BoundingBox>) -> (r: Self)
        ensures
            r.provided_spec() == provided,
            r.expected_spec() == expected,
    {
        OversizedBounds { provided, expected }
    }

    /// The region that was refused.
    pub fn provided(&self) -> (r: BoundingBox)
        ensures
            r == self.provided_spec(),
    {
        self.provided
    }

    /// The region it had to fit in, when known.
    pub fn expected(&self) -> (r: Option<BoundingBox>)
        ensures
            r == self.expected_spec(),
    {
        self.expected
    }
}

} // verus!
