//! Point entities drawn as billboard sprites.

use vstd::prelude::*;
use crate::MAX_COORD;

verus! {

/// An enemy is a fixed-point world position; any behavior lives outside
/// the renderer.
pub struct Enemy {
    pub x: u64,
    pub y: u64,
}

impl Enemy {
    /// Position inside the coordinate range the geometry accepts.
    pub open spec fn wf(&self) -> bool {
        &&& self.x <= MAX_COORD
        &&& self.y <= MAX_COORD
    }

    pub fn new(x: u64, y: u64) -> (e: Enemy)
        ensures
            e.x == x,
            e.y == y,
    {
        Enemy { x, y }
    }
}

} // verus!
