//! A first-person grid world: fixed-point ray marching against a tile grid,
//! perspective projection of walls and billboard sprites, occlusion through a
//! per-column depth buffer, and axis-separated collision for player movement.
//!
//! All quantities are integers. Lengths are in millionths of a grid cell,
//! angles in microradians, times in microseconds, and factors (brightness,
//! unit-vector components, scales) in millionths.
use vstd::prelude::*;

pub mod fixed;
pub mod grid;
pub mod player;
pub mod raycast;
pub mod sprite;
pub mod billboard;
pub mod menu;
pub mod game;

verus! {

} // verus!
