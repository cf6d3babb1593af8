//! Fixed-point numeric core of a small space arcade game: vectors on an
//! integer grid, a colour ramp, background texture baking, inverse-square
//! attraction, non-overlapping placement, and the bookkeeping around them.
//!
//! All quantities are integers. Lengths and positions are counted in grid
//! units, `SCALE` of which make one world unit.

pub mod behaviors;
pub mod controls;
pub mod gradient;
pub mod gravity;
pub mod health;
pub mod movement;
pub mod noise_field;
pub mod placement;
pub mod random;
pub mod spawn;
pub mod texture;
pub mod vector;
