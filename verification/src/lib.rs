//! A terminal-oriented first-person renderer core: a tile grid, a camera,
//! a DDA raycaster, distance/axis shading, and a double-buffered character
//! frame surface with a coalescing flush.
//!
//! All geometry is carried in signed 16.16 fixed-point integers, so every
//! step of the pipeline is exact integer arithmetic.

pub mod buffer;
pub mod fixed;
pub mod grid;
pub mod material;
pub mod math;
pub mod player;
pub mod raycaster;
pub mod shade;
pub mod terminal;
