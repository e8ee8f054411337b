//! Core rig types: semantic bone names, rest-pose snapshots, and the per-rig
//! attachment state.

use vstd::prelude::*;
use crate::math::Transform;
use crate::vrm::humanoid_bone::HumanoidBoneRegistry;
use crate::vrm::spring_bone::{SpringColliderRegistry, SpringJointPropsRegistry, SpringNodeRegistry};

pub mod extensions;
pub mod humanoid_bone;
pub mod spring_bone;

verus! {

/// Marker for the root of a model rig (the rig that wears the animation);
/// carried on the scene model as a node's `vrm` flag.
#[derive(Debug, Clone, Copy, PartialEq, Eq, Structural)]
pub struct Vrm;

/// The path the model was loaded from.
#[derive(Debug, Clone, PartialEq, Eq)]
pub struct VrmPath(pub String);

impl VrmPath {
    /// Creates a new [`VrmPath`] from the path.
    pub fn new(path: String) -> (r: Self)
        ensures
            r.0@ == path@,
    {
        Self(path)
    }
}

/// A semantic bone name from the humanoid vocabulary (for example "hips").
#[derive(Debug, PartialEq, Eq, Hash)]
pub struct VrmBone(pub String);

impl View for VrmBone {
    type V = Seq<char>;

    open spec fn view(&self) -> Seq<char> {
        self.0@
    }
}

impl Clone for VrmBone {
    fn clone(&self) -> (r: Self)
        ensures
            r == *self,
    {
        VrmBone(self.0.clone())
    }
}

/// The key name of an expression preset.
#[derive(Debug, PartialEq, Eq, Hash)]
pub struct VrmExpression(pub String);

impl View for VrmExpression {
    type V = Seq<char>;

    open spec fn view(&self) -> Seq<char> {
        self.0@
    }
}

impl Clone for VrmExpression {
    fn clone(&self) -> (r: Self)
        ensures
            r == *self,
    {
        VrmExpression(self.0.clone())
    }
}

/// The distinguished bone name that marks a rig's root joint.
pub open spec fn spec_hips_name() -> Seq<char> {
    "hips"@
}

/// The distinguished bone identifier, as an owned string.
pub fn hips_name() -> (r: String)
    ensures
        r@ == spec_hips_name(),
{
    "hips".to_owned()
}

/// The name of the placeholder root node whose presence marks a rig's
/// hierarchy as ready for humanoid attachment.
pub open spec fn spec_placeholder_root_name() -> Seq<char> {
    "Root"@
}

/// The placeholder root node name, as an owned string.
pub fn placeholder_root_name() -> (r: String)
    ensures
        r@ == spec_placeholder_root_name(),
{
    "Root".to_owned()
}

/// A bone's local transform captured at attachment time.
#[derive(Debug, Clone, Copy, PartialEq, Eq, Structural)]
pub struct BoneRestTransform(pub Transform);

/// A bone's world transform captured at attachment time.
#[derive(Debug, Clone, Copy, PartialEq, Eq, Structural)]
pub struct BoneRestGlobalTransform(pub Transform);

/// Holds the node index of the rig's hips bone.
#[derive(Debug, Clone, Copy, PartialEq, Eq, Structural)]
pub struct VrmHipsBoneTo(pub usize);

/// One-shot markers recording which preparation stage has completed for a rig.
/// Each flag moves from `false` to `true` exactly once; a stage whose flag is
/// already set never runs again on that rig.
#[derive(Debug, Clone, Copy, PartialEq, Eq, Structural)]
pub struct AttachmentGates {
    pub humanoid_bones_attached: bool,
    pub retargeted_human_bones: bool,
    pub attached_joint_props: bool,
    pub attached_collider_shapes: bool,
    pub attached_spring_roots: bool,
}

impl AttachmentGates {
    /// Fresh gates: nothing has run yet.
    pub fn new() -> (r: Self)
        ensures
            r == (AttachmentGates {
                humanoid_bones_attached: false,
                retargeted_human_bones: false,
                attached_joint_props: false,
                attached_collider_shapes: false,
                attached_spring_roots: false,
            }),
    {
        AttachmentGates {
            humanoid_bones_attached: false,
            retargeted_human_bones: false,
            attached_joint_props: false,
            attached_collider_shapes: false,
            attached_spring_roots: false,
        }
    }
}

/// One rig: the index of its root node, the registries parsed from its asset
/// metadata, its gate state, and the back-references recorded by the passes.
pub struct Rig {
    /// Index of the rig's root node in the scene.
    pub root: usize,
    /// Semantic bone identifier to node name, unique keys.
    pub bones: HumanoidBoneRegistry,
    /// Per-node spring joint properties, keyed by node name.
    pub joint_props: SpringJointPropsRegistry,
    /// Per-node collider shapes, keyed by node name.
    pub collider_shapes: SpringColliderRegistry,
    /// Declared spring chains, by node name.
    pub spring_nodes: SpringNodeRegistry,
    /// The one-shot stage markers for this rig.
    pub gates: AttachmentGates,
    /// Back-reference to the resolved hips node, written by bone attachment.
    pub hips_bone_to: Option<VrmHipsBoneTo>,
    /// For an animation rig: the root node of the rig to retarget onto.
    pub retarget_to: Option<usize>,
}

impl Rig {
    /// A rig with the given root and registries and nothing attached yet.
    pub fn new(
        root: usize,
        bones: HumanoidBoneRegistry,
        joint_props: SpringJointPropsRegistry,
        collider_shapes: SpringColliderRegistry,
        spring_nodes: SpringNodeRegistry,
    ) -> (r: Self)
        ensures
            r.root == root,
            r.bones == bones,
            r.joint_props == joint_props,
            r.collider_shapes == collider_shapes,
            r.spring_nodes == spring_nodes,
            !r.gates.humanoid_bones_attached,
            !r.gates.retargeted_human_bones,
            !r.gates.attached_joint_props,
            !r.gates.attached_collider_shapes,
            !r.gates.attached_spring_roots,
            r.hips_bone_to is None,
            r.retarget_to is None,
    {
        Rig {
            root,
            bones,
            joint_props,
            collider_shapes,
            spring_nodes,
            gates: AttachmentGates::new(),
            hips_bone_to: None,
            retarget_to: None,
        }
    }
}

} // verus!
