//! Bounded three-dimensional containers addressed by integer positions.
mod arith;
pub mod bounding_box;
pub mod error;
pub mod heap;
pub mod index;
pub mod spaces;
pub mod stack;
pub mod subvolume;
pub mod util;
pub mod volume;

pub use bounding_box::{BoundingBox, BoundingBoxIterator};
pub use error::{InsertError, OversizedBounds};
pub use heap::HeapVolume;
pub use index::{idx_usize, unpack_i64, VolumeIdx};
pub use spaces::Space;
pub use stack::StackVolume;
pub use subvolume::Subvolume;
pub use volume::{Volume, VolumeExt, VolumeIterator};
