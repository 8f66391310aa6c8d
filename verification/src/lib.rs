//! Runtime simulation core of a top-down action game: behavior-tree driven
//! decision making, movement dispatch, target resolution, and axis-separated
//! collision handling for every non-player actor, stepped once per frame.
//!
//! World geometry and time are measured in fixed-point scalars (see [`fixed`]):
//! one thousandth of a world unit, or of a second, is 1.

pub mod actor;
pub mod behavior;
pub mod collision;
pub mod fixed;
pub mod flags;
pub mod geom;
pub mod movement;
pub mod separate;
pub mod table;
pub mod target;
pub mod terrain;
