//! The parsed shape of the asset's rig extension metadata, and the verified
//! navigation that picks the extension objects out of the asset's JSON.
//!
//! Turning the JSON objects into these types is schema work done outside the
//! library; the types here carry only what the attachment passes read.

use vstd::prelude::*;
use crate::error::VrmError;
use crate::vrm::spring_bone::{ColliderShape, SpringJointProps, SpringNode};

verus! {

/// Represents a node in the asset file.
#[derive(Debug, Clone, Copy, PartialEq, Eq, Structural)]
pub struct VrmNode {
    /// The index of the node in the asset file.
    pub node: usize,
}

/// The meta block of the rig extension.
#[derive(Debug, Clone, PartialEq, Eq)]
pub struct VrmMeta {
    pub name: Option<String>,
}

/// The humanoid block: semantic bone name to asset node index.
#[derive(Debug, Clone, PartialEq, Eq)]
pub struct Humanoid {
    pub human_bones: Vec<(String, VrmNode)>,
}

/// The parsed rig extension block.
#[derive(Debug, Clone, PartialEq, Eq)]
pub struct VrmcVrm {
    pub meta: Option<VrmMeta>,
    pub humanoid: Humanoid,
}

/// The parsed spring-bone extension block.
#[derive(Debug, Clone, PartialEq, Eq)]
pub struct VrmcSpringBone {
    pub joints: Vec<(String, SpringJointProps)>,
    pub colliders: Vec<(String, ColliderShape)>,
    pub springs: Vec<SpringNode>,
}

/// The rig-relevant extensions of one asset.
#[derive(Debug, Clone, PartialEq, Eq)]
pub struct VrmExtensions {
    pub vrmc_vrm: VrmcVrm,
    pub vrmc_spring_bone: Option<VrmcSpringBone>,
}

impl VrmExtensions {
    /// Gets the name of the avatar.
    ///
    /// Returns `None` if the name does not exist in the meta information.
    pub fn name(&self) -> (r: Option<String>)
        ensures
            match r {
                Some(n) => self.vrmc_vrm.meta matches Some(m) && m.name matches Some(inner) && n@
                    == inner@,
                None => self.vrmc_vrm.meta is None || (self.vrmc_vrm.meta matches Some(m)
                    && m.name is None),
            },
    {
        match &self.vrmc_vrm.meta {
            Some(meta) => match &meta.name {
                Some(n) => Some(n.clone()),
                None => None,
            },
            None => None,
        }
    }
}

// ---------------------------------------------------------------------------
// Picking the extension objects out of the asset's JSON.
// ---------------------------------------------------------------------------

#[verifier::external_type_specification]
#[verifier::external_body]
pub struct ExJsonValue(serde_json::Value);

#[verifier::external_type_specification]
#[verifier::external_body]
#[verifier::reject_recursive_types(K)]
#[verifier::reject_recursive_types(V)]
pub struct ExJsonMap<K, V>(serde_json::Map<K, V>);

/// What a JSON object holds, as a map from key to value.
pub uninterp spec fn json_fields(m: serde_json::Map<String, serde_json::Value>) -> Map<
    Seq<char>,
    serde_json::Value,
>;

/// Relies on serde_json's `Map::get`: the value stored under the key, if the
/// object holds one.
#[verifier::external_body]
fn json_map_get<'a>(m: &'a serde_json::Map<String, serde_json::Value>, key: &str) -> (r: Option<
    &'a serde_json::Value,
>)
    ensures
        match r {
            Some(v) => json_fields(*m).contains_key(key@) && *v == json_fields(*m)[key@],
            None => !json_fields(*m).contains_key(key@),
        },
{
    m.get(key)
}

/// Relies on serde_json's derived `Clone` for `Value`: a deep copy equal to
/// the original.
#[verifier::external_body]
fn json_value_clone(v: &serde_json::Value) -> (r: serde_json::Value)
    ensures
        r == *v,
{
    v.clone()
}

/// Picks the rig extension object out of the asset's extension JSON: the
/// value under "VRMC_vrm", or failing that under "VRMC_vrm_animation", cloned;
/// with neither present, the JSON carries no rig extension.
pub fn obtain_vrmc_vrm(json: &serde_json::Map<String, serde_json::Value>) -> (r: Result<
    serde_json::Value,
    VrmError,
>)
    ensures
        json_fields(*json).contains_key("VRMC_vrm"@) ==> (r matches Ok(v) && v == json_fields(
            *json,
        )["VRMC_vrm"@]),
        !json_fields(*json).contains_key("VRMC_vrm"@) && json_fields(*json).contains_key(
            "VRMC_vrm_animation"@,
        ) ==> (r matches Ok(v) && v == json_fields(*json)["VRMC_vrm_animation"@]),
        !json_fields(*json).contains_key("VRMC_vrm"@) && !json_fields(*json).contains_key(
            "VRMC_vrm_animation"@,
        ) ==> r == Err::<serde_json::Value, VrmError>(VrmError::NotFoundVrmcVrm),
{
    match json_map_get(json, "VRMC_vrm") {
        Some(v) => Ok(json_value_clone(v)),
        None => match json_map_get(json, "VRMC_vrm_animation") {
            Some(v) => Ok(json_value_clone(v)),
            None => Err(VrmError::NotFoundVrmcVrm),
        },
    }
}

/// Picks the spring-bone extension object out of the asset's extension JSON:
/// the value under "VRMC_springBone", cloned, or the error naming its absence.
pub fn obtain_vrmc_springs(json: &serde_json::Map<String, serde_json::Value>) -> (r: Result<
    serde_json::Value,
    VrmError,
>)
    ensures
        json_fields(*json).contains_key("VRMC_springBone"@) ==> (r matches Ok(v) && v
            == json_fields(*json)["VRMC_springBone"@]),
        !json_fields(*json).contains_key("VRMC_springBone"@) ==> r == Err::<
            serde_json::Value,
            VrmError,
        >(VrmError::NotFoundVrmcSpringBone),
{
    match json_map_get(json, "VRMC_springBone") {
        Some(v) => Ok(json_value_clone(v)),
        None => Err(VrmError::NotFoundVrmcSpringBone),
    }
}

} // verus!
