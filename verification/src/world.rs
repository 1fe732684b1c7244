//! The dimensions a world is made of.

use vstd::prelude::*;

verus! {

/// One of the world's planes.
#[derive(Debug, Clone, Copy, PartialEq, Eq, Hash)]
pub enum Dimension {
    /// The surface world.
    Overworld,
    /// The charred world below, reached with a fire key.
    Underworld,
    /// The boss arena, reached with an arena key.
    Arena,
}

/// A chunk's coordinates `(cx, cy)`.
pub type ChunkCoord = (i32, i32);

} // verus!
