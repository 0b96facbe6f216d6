//! Simulation core of an arcade space-combat game: ships, bullets, rocks and
//! debris move on a wrap-around playfield in fixed-point coordinates, collide
//! through triangle hulls, and spawn or vanish by the game's rules. Windowing,
//! input polling, frame pacing and drawing are left to the caller.
use vstd::prelude::*;

pub mod body;
mod chance;
pub mod color;
pub mod entity;
pub mod fixed;
pub mod geometry;
pub mod render;
pub mod shapes;
pub mod world;

pub use color::{shade, Rgba};
pub use fixed::{rotation_matrix, AsPoint};

verus! {

} // verus!
