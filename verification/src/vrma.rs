//! Types for animation rigs: rigs that carry pose data to be worn by a model
//! rig.

use vstd::prelude::*;

pub mod animation;
pub mod retarget;
pub mod spawn;

verus! {

/// Marker for the root of an animation rig; carried on the scene model as a
/// node's `vrma` flag.
#[derive(Debug, Clone, Copy, PartialEq, Eq, Structural)]
pub struct Vrma;

/// A new type pattern object to explicitly indicate the node is an animation
/// rig root.
#[derive(Debug, Clone, Copy, PartialEq, Eq, Structural)]
pub struct VrmaEntity(pub usize);

/// Represents the path to the animation file.
#[derive(Debug, Clone, PartialEq, Eq)]
pub struct VrmaPath(pub String);

/// The duration of the rig's animation, in fixed-point milliseconds.
#[derive(Debug, Clone, Copy, PartialEq, Eq, Structural)]
pub struct VrmaDuration(pub u64);

} // verus!
