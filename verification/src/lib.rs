//! A verified model of a humanoid rig retargeting and spring-bone pipeline.
//!
//! The library works on its own scene model: a tree of named nodes with
//! fixed-point transforms. Attachment passes resolve semantic bone names into
//! that tree, capture rest poses, build spring chains and copy corrected poses
//! from a source rig onto a target rig, each pass gated by one-shot flags.

pub mod error;
pub mod math;
pub mod system_param;
pub mod vrm;
pub mod vrma;
pub mod world;

use vstd::prelude::*;

verus! {

/// Fixed-point scale: the number of model units that represent 1.0 of the
/// original floating-point coordinate space.
pub const SCALE: i64 = 1000;

} // verus!
