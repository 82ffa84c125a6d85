//! A first-person renderer for 2D sector/portal maps.
//!
//! The world is a set of convex sectors joined by portal walls. A ray
//! caster walks the portal graph to find the surfaces visible along a
//! ray, and a column renderer projects them into a pixel buffer. All
//! geometry is carried in 16.16 fixed-point integers, so every geometric
//! result is specified exactly.

pub mod fixed;
pub mod game;
pub mod input;
pub mod map;
pub mod math;
pub mod render;
pub mod state;
pub mod world;
