//! The library's error type for metadata that lacks a required block.

use vstd::prelude::*;

verus! {

/// Why extension metadata could not be used.
#[derive(Debug, Clone, Copy, PartialEq, Eq, Structural)]
pub enum VrmError {
    /// The JSON holds neither a rig nor a rig-animation extension block.
    NotFoundVrmcVrm,
    /// The JSON holds no spring-bone extension block.
    NotFoundVrmcSpringBone,
}

impl VrmError {
    /// A short description, for callers that log.
    pub fn message(&self) -> (r: &'static str)
        ensures
            *self is NotFoundVrmcVrm ==> r@ == "Not found VRMC_vrm or VRMC_vrm_animation"@,
            *self is NotFoundVrmcSpringBone ==> r@ == "Not found VRMC_springBone"@,
    {
        match self {
            VrmError::NotFoundVrmcVrm => "Not found VRMC_vrm or VRMC_vrm_animation",
            VrmError::NotFoundVrmcSpringBone => "Not found VRMC_springBone",
        }
    }
}

} // verus!
