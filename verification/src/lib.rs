//! A software renderer for first-person views of a 2-D tile maze.
//!
//! The world is a rectangular grid of cell codes (`' '` for open floor,
//! `'g'` for the goal, anything else a wall kind). A ray caster marches
//! rays through the grid in fixed increments, a wall projector turns the
//! hits of one ray per screen column into texture-mapped vertical strips
//! with a per-column depth buffer, and a sprite compositor draws
//! camera-facing billboards against that buffer. A collision probe answers
//! whether a world position overlaps a blocking cell.
//!
//! All geometry uses fixed-point integers: a world coordinate, distance or
//! angle in radians is stored multiplied by [`FP`]. Callers that work in
//! floating point convert at the boundary.

use vstd::prelude::*;

pub mod atlas;
pub mod enemy;
pub mod fixed;
pub mod framebuffer;
pub mod maze;
pub mod player;
pub mod raycast;
pub mod render;
pub mod screen;
pub mod sprite;
pub mod texture;

verus! {

/// Fixed-point scale: the integer that stands for 1.0 in coordinates,
/// distances and angles.
pub const FP: u64 = 65536;

/// Upper bound on fixed-point world coordinates accepted by the geometry
/// functions; keeps every intermediate product inside `u64`.
pub const MAX_COORD: u64 = 0x4000_0000;

/// Upper bound on fixed-point marched distances.
pub const MAX_DIST: u64 = 0x4000_0000;

/// The renderer's tunables; one value is built at startup and shared by
/// the caster, the projector, the compositor and the collision probe so
/// that every component works at the same world scale.
pub struct RenderConfig {
    /// Cell size in world units.
    pub block_size: u64,
    /// Ray march step, in fixed-point world units.
    pub step: u64,
    /// Bound on the number of march steps of one ray.
    pub max_steps: u64,
    /// Distance to the projection plane (focal length), in world units.
    pub proj_dist: u64,
    /// Sprite scale constant, in world units.
    pub sprite_scale: u64,
    /// Sprites nearer than this fixed-point distance are skipped.
    pub min_sprite_dist: u64,
    /// Sprites whose bearing (fixed-point radians) is below this are
    /// skipped as behind the camera.
    pub behind_threshold: i64,
    /// The color key that sprite and UI compositing never draw.
    pub transparent: u32,
}

impl RenderConfig {
    /// Bounds that keep every intermediate product of the geometry inside
    /// a machine word.
    pub open spec fn wf(&self) -> bool {
        &&& 1 <= self.block_size <= 32768
        &&& 1 <= self.step <= MAX_DIST
        &&& 1 <= self.max_steps
        &&& self.max_steps * self.step <= MAX_DIST
        &&& 1 <= self.proj_dist <= 32768
        &&& 1 <= self.sprite_scale <= 32768
        &&& 1 <= self.min_sprite_dist <= MAX_DIST
    }
}

/// A ready-made configuration: 70-unit cells, a one-unit
/// march step, a 70-unit focal length and sprite scale, sprites skipped
/// nearer than 50 units or more than about a radian behind the view axis.
pub fn default_config() -> (cfg: RenderConfig)
    ensures
        cfg.wf(),
        cfg.block_size == 70,
        cfg.step == FP,
        cfg.max_steps == 16384,
        cfg.proj_dist == 70,
        cfg.sprite_scale == 70,
        cfg.min_sprite_dist == 50 * FP,
        cfg.behind_threshold == -(FP as i64),
        cfg.transparent == 0xED1C24,
{
    let cfg = RenderConfig {
        block_size: 70,
        step: FP,
        max_steps: 16384,
        proj_dist: 70,
        sprite_scale: 70,
        min_sprite_dist: 50 * FP,
        behind_threshold: -(FP as i64),
        transparent: 0xED1C24,
    };
    assert(cfg.max_steps * cfg.step == 0x4000_0000) by (nonlinear_arith)
        requires cfg.max_steps == 16384 && cfg.step == 65536;
    cfg
}

} // verus!
