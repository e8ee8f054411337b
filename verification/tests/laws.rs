//! Concrete checks of the library's stated behaviour: tagging exactly the
//! resolvable registry entries, gate idempotence, chain sizes, segment
//! geometry, the hips correction, and the pose-binding frame conditions.

use bevy_vrma::error::VrmError;
use bevy_vrma::math::{norm_fixed, normalize_fixed, Quat, Transform, Vec3};
use bevy_vrma::vrm::extensions::VrmNode;
use bevy_vrma::vrm::humanoid_bone::{attach_bones, HumanoidBoneRegistry};
use bevy_vrma::vrm::spring_bone::{
    attach_spring_roots, SpringColliderRegistry, SpringJointPropsRegistry, SpringNode,
    SpringNodeRegistry,
};
use bevy_vrma::vrm::{BoneRestGlobalTransform, BoneRestTransform, Rig, VrmBone, VrmHipsBoneTo};
use bevy_vrma::vrma::retarget::{
    bind_bone_rotations, calc_hips_position, retarget_bones_to_vrm,
};
use bevy_vrma::vrma::spawn::obtain_vrma_duration;
use bevy_vrma::world::SceneWorld;

fn empty_rig(root: usize) -> Rig {
    Rig::new(
        root,
        HumanoidBoneRegistry::default(),
        SpringJointPropsRegistry::default(),
        SpringColliderRegistry::default(),
        SpringNodeRegistry::default(),
    )
}

fn spawn_at(world: &mut SceneWorld, name: &str, parent: Option<usize>, t: Transform) -> usize {
    world.spawn(name.to_string(), parent, t, Transform::identity())
}

fn bone_registry(entries: &[(&str, &str)]) -> HumanoidBoneRegistry {
    HumanoidBoneRegistry(
        entries
            .iter()
            .map(|(bone, name)| (VrmBone(bone.to_string()), name.to_string()))
            .collect(),
    )
}

/// Attaching tags every resolvable registry entry with its identifier and rest
/// snapshots, and touches nothing else.
#[test]
fn attach_tags_resolved_and_only_resolved() {
    let mut world = SceneWorld::new();
    let root = spawn_at(&mut world, "VRM", None, Transform::identity());
    spawn_at(&mut world, "Root", Some(root), Transform::identity());
    let hips = world.spawn(
        "Hips".to_string(),
        Some(root),
        Transform::from_xyz(0, 900, 0),
        Transform::from_xyz(0, 1000, 0),
    );
    let head = world.spawn(
        "Head".to_string(),
        Some(root),
        Transform::from_xyz(0, 500, 0),
        Transform::from_xyz(0, 1500, 0),
    );
    let bystander = spawn_at(&mut world, "Prop", Some(root), Transform::identity());
    let mut rig = empty_rig(root);
    rig.bones = bone_registry(&[("hips", "Hips"), ("head", "Head"), ("leftFoot", "Missing")]);

    attach_bones(&mut world, &mut rig);

    assert_eq!(world.nodes[hips].bone, Some(VrmBone("hips".to_string())));
    assert_eq!(
        world.nodes[hips].rest_transform,
        Some(BoneRestTransform(Transform::from_xyz(0, 900, 0)))
    );
    assert_eq!(
        world.nodes[hips].rest_global_transform,
        Some(BoneRestGlobalTransform(Transform::from_xyz(0, 1000, 0)))
    );
    assert!(world.nodes[hips].hips);
    assert_eq!(rig.hips_bone_to, Some(VrmHipsBoneTo(hips)));
    assert_eq!(world.nodes[head].bone, Some(VrmBone("head".to_string())));
    assert!(!world.nodes[head].hips);
    assert_eq!(world.nodes[bystander].bone, None);
    assert_eq!(world.nodes[bystander].rest_transform, None);
    assert!(rig.gates.humanoid_bones_attached);
}

/// The flag is set once, and re-running the attacher on an already-handled
/// rig changes nothing.
#[test]
fn attach_is_idempotent() {
    let mut world = SceneWorld::new();
    let root = spawn_at(&mut world, "VRM", None, Transform::identity());
    spawn_at(&mut world, "Root", Some(root), Transform::identity());
    let hips = world.spawn(
        "Hips".to_string(),
        Some(root),
        Transform::from_xyz(0, 900, 0),
        Transform::from_xyz(0, 1000, 0),
    );
    let mut rig = empty_rig(root);
    rig.bones = bone_registry(&[("hips", "Hips")]);

    attach_bones(&mut world, &mut rig);
    assert!(rig.gates.humanoid_bones_attached);

    // move the bone, then re-run: the gated rig is a no-op, so the stale rest
    // snapshot survives
    world.set_local_transform(hips, Transform::from_xyz(0, 333, 0));
    attach_bones(&mut world, &mut rig);
    assert_eq!(
        world.nodes[hips].rest_transform,
        Some(BoneRestTransform(Transform::from_xyz(0, 900, 0)))
    );
    assert!(rig.gates.humanoid_bones_attached);
}

/// A rig whose names never resolve still gets its gate set (and nothing is
/// tagged), so it is not reprocessed forever.
#[test]
fn unresolvable_names_still_gate() {
    let mut world = SceneWorld::new();
    let root = spawn_at(&mut world, "VRM", None, Transform::identity());
    spawn_at(&mut world, "Root", Some(root), Transform::identity());
    let child = spawn_at(&mut world, "Something", Some(root), Transform::identity());
    let mut rig = empty_rig(root);
    rig.bones = bone_registry(&[("hips", "NoSuchNode"), ("head", "AlsoMissing")]);

    attach_bones(&mut world, &mut rig);

    assert!(rig.gates.humanoid_bones_attached);
    assert_eq!(world.nodes[child].bone, None);
    assert_eq!(rig.hips_bone_to, None);
}

/// A rig whose placeholder root node has not spawned yet is skipped with its
/// flag left unset and revisited later, even if other children exist; once
/// "Root" spawns, the pass runs.
#[test]
fn not_ready_rig_is_skipped() {
    let mut world = SceneWorld::new();
    let root = spawn_at(&mut world, "VRM", None, Transform::identity());
    let mut rig = empty_rig(root);
    rig.bones = bone_registry(&[("hips", "Hips")]);

    attach_bones(&mut world, &mut rig);
    assert!(!rig.gates.humanoid_bones_attached);

    // a child alone is not readiness: the placeholder root must resolve
    let hips = spawn_at(&mut world, "Hips", Some(root), Transform::identity());
    attach_bones(&mut world, &mut rig);
    assert!(!rig.gates.humanoid_bones_attached);
    assert_eq!(world.nodes[hips].bone, None);

    spawn_at(&mut world, "Root", Some(root), Transform::identity());
    attach_bones(&mut world, &mut rig);
    assert!(rig.gates.humanoid_bones_attached);
    assert_eq!(world.nodes[hips].bone, Some(VrmBone("hips".to_string())));
}

/// A definition with three joint names of which two resolve yields a chain of
/// exactly two joints; one with none resolving attaches no chain at all.
#[test]
fn spring_chain_has_exactly_the_resolved_joints() {
    let mut world = SceneWorld::new();
    let root = spawn_at(&mut world, "VRM", None, Transform::identity());
    spawn_at(&mut world, "Root", Some(root), Transform::identity());
    let a = spawn_at(&mut world, "a", Some(root), Transform::identity());
    let c = spawn_at(&mut world, "c", Some(root), Transform::identity());
    let mut rig = empty_rig(root);
    rig.spring_nodes = SpringNodeRegistry(vec![
        SpringNode {
            center: None,
            joints: vec!["a".to_string(), "missing".to_string(), "c".to_string()],
            colliders: Vec::new(),
        },
        SpringNode {
            center: None,
            joints: vec!["gone".to_string(), "absent".to_string()],
            colliders: Vec::new(),
        },
    ]);

    let attached = attach_spring_roots(&mut world, &mut rig);

    assert_eq!(attached, vec![a]);
    let chain = world.nodes[a].spring_root.as_ref().unwrap();
    assert_eq!(chain.joints, vec![a, c]);
    for node in &world.nodes {
        if let Some(sr) = &node.spring_root {
            assert!(!sr.joints.is_empty());
        }
    }
}

/// The hips round trip: rest (0,1,0), pose (0,1.5,0), target rest (0,2,0)
/// gives (0,2,0) + (0,0.5,0) * 2 = (0,3,0), in thousandths.
#[test]
fn hips_translation_round_trip() {
    let r = calc_hips_position(
        Vec3::new(0, 1000, 0),
        Vec3::new(0, 1500, 0),
        Vec3::new(0, 2000, 0),
    );
    assert_eq!(r, Vec3::new(0, 3000, 0));
}

/// A world where one linked hips source moves: the bound target lands exactly
/// on the corrected position, with the source's rotation and its own scale.
#[test]
fn bind_moves_hips_by_the_height_ratio() {
    let mut world = SceneWorld::new();
    let src = spawn_at(&mut world, "src-hips", None, Transform::identity());
    let dst = spawn_at(&mut world, "dst-hips", None, Transform::identity());
    world.nodes[src].hips = true;
    world.nodes[src].retarget_source = true;
    world.nodes[src].retarget_bone_to = Some(dst);
    world.nodes[src].current_retargeting = true;
    world.nodes[src].rest_global_transform =
        Some(BoneRestGlobalTransform(Transform::from_xyz(0, 1000, 0)));
    world.nodes[dst].rest_global_transform =
        Some(BoneRestGlobalTransform(Transform::from_xyz(0, 2000, 0)));
    world.set_global_transform(src, Transform::from_xyz(0, 1500, 0));
    let mut pose = Transform::from_xyz(4, 5, 6);
    pose.rotation = Quat { x: 1, y: 2, z: 3, w: 4 };
    world.set_local_transform(src, pose);

    bind_bone_rotations(&mut world);

    assert_eq!(world.nodes[dst].transform.translation, Vec3::new(0, 3000, 0));
    assert_eq!(world.nodes[dst].transform.rotation, Quat { x: 1, y: 2, z: 3, w: 4 });
    assert_eq!(world.nodes[dst].transform.scale, Vec3::new(1000, 1000, 1000));
}

/// A non-hips bone never moves its target: across arbitrary source poses only
/// the rotation differs before and after.
#[test]
fn non_hips_bones_keep_target_translation() {
    let poses = [
        Transform::from_xyz(1, 2, 3),
        Transform::from_xyz(-500, 900_000, 0),
        Transform::from_xyz(7, -7, 7),
    ];
    for (round, pose) in poses.iter().enumerate() {
        let mut world = SceneWorld::new();
        let src = spawn_at(&mut world, "src-arm", None, Transform::identity());
        let dst = world.spawn(
            "dst-arm".to_string(),
            None,
            Transform::from_xyz(10, 20, 30),
            Transform::identity(),
        );
        world.nodes[src].retarget_source = true;
        world.nodes[src].retarget_bone_to = Some(dst);
        world.nodes[src].current_retargeting = true;
        world.nodes[src].rest_global_transform =
            Some(BoneRestGlobalTransform(Transform::from_xyz(0, 1000, 0)));
        world.nodes[dst].rest_global_transform =
            Some(BoneRestGlobalTransform(Transform::from_xyz(0, 2000, 0)));
        let mut moved = *pose;
        moved.rotation = Quat { x: round as i64, y: 1, z: 0, w: 9 };
        world.set_local_transform(src, moved);

        bind_bone_rotations(&mut world);

        assert_eq!(world.nodes[dst].transform.translation, Vec3::new(10, 20, 30));
        assert_eq!(world.nodes[dst].transform.rotation, moved.rotation);
    }
}

/// A source without a retarget link mutates nothing, however its transform
/// changes.
#[test]
fn unlinked_source_moves_nothing() {
    let mut world = SceneWorld::new();
    let src = spawn_at(&mut world, "loose", None, Transform::identity());
    let dst = world.spawn(
        "dst".to_string(),
        None,
        Transform::from_xyz(10, 20, 30),
        Transform::identity(),
    );
    world.nodes[src].current_retargeting = true;
    world.nodes[src].rest_global_transform =
        Some(BoneRestGlobalTransform(Transform::identity()));
    world.set_local_transform(src, Transform::from_xyz(999, 999, 999));

    bind_bone_rotations(&mut world);

    assert_eq!(world.nodes[dst].transform, Transform::from_xyz(10, 20, 30));
}

/// Correspondence building reports each bone that resolves in the source but
/// not under the target's hips, and links the rest.
#[test]
fn retarget_links_and_diagnostics() {
    let mut world = SceneWorld::new();
    let vrm = spawn_at(&mut world, "Avatar", None, Transform::identity());
    let hips = spawn_at(&mut world, "Hips", Some(vrm), Transform::identity());
    let head = spawn_at(&mut world, "Head", Some(hips), Transform::identity());
    world.nodes[hips].bone = Some(VrmBone("hips".to_string()));
    world.nodes[head].bone = Some(VrmBone("head".to_string()));
    let mut target = empty_rig(vrm);
    target.hips_bone_to = Some(VrmHipsBoneTo(hips));

    let vrma = spawn_at(&mut world, "Anim", None, Transform::identity());
    let s_hips = spawn_at(&mut world, "J_Hips", Some(vrma), Transform::identity());
    let s_head = spawn_at(&mut world, "J_Head", Some(vrma), Transform::identity());
    let s_arm = spawn_at(&mut world, "J_Arm", Some(vrma), Transform::identity());
    world.nodes[s_hips].bone = Some(VrmBone("hips".to_string()));
    world.nodes[s_head].bone = Some(VrmBone("head".to_string()));
    world.nodes[s_arm].bone = Some(VrmBone("leftUpperArm".to_string()));
    let mut source = empty_rig(vrma);
    source.bones = bone_registry(&[
        ("hips", "J_Hips"),
        ("head", "J_Head"),
        ("leftUpperArm", "J_Arm"),
    ]);
    source.retarget_to = Some(vrm);
    source.gates.humanoid_bones_attached = true;

    let diags = retarget_bones_to_vrm(&mut world, &mut source, &target);

    assert!(source.gates.retargeted_human_bones);
    assert_eq!(world.nodes[s_hips].retarget_bone_to, Some(hips));
    assert!(world.nodes[s_hips].retarget_source);
    assert_eq!(world.nodes[s_head].retarget_bone_to, Some(head));
    assert_eq!(world.nodes[s_arm].retarget_bone_to, None);
    assert_eq!(diags.len(), 1);
    assert_eq!(diags[0].bone, VrmBone("leftUpperArm".to_string()));
    assert_eq!(diags[0].target, "Avatar".to_string());
}

/// The registry builder maps each bone to the named node and drops entries
/// whose node index is out of range.
#[test]
fn registry_built_from_node_table() {
    let bones = vec![
        ("hips".to_string(), VrmNode { node: 1 }),
        ("head".to_string(), VrmNode { node: 9 }),
    ];
    let names = vec!["armature".to_string(), "J_Hips".to_string()];
    let registry = HumanoidBoneRegistry::new(&bones, &names);
    assert_eq!(registry.0.len(), 1);
    assert_eq!(registry.0[0].0, VrmBone("hips".to_string()));
    assert_eq!(registry.0[0].1, "J_Hips".to_string());
}

/// The longest clip wins; no clips means zero duration.
#[test]
fn duration_is_the_longest_clip() {
    assert_eq!(obtain_vrma_duration(&vec![1000, 3000, 2000]), 3000);
    assert_eq!(obtain_vrma_duration(&Vec::new()), 0);
}

/// Fixed-point norms are exact on exact inputs, and the zero vector falls back
/// to the unit up axis.
#[test]
fn norms_and_the_zero_fallback() {
    assert_eq!(norm_fixed(&Vec3::new(3000, 4000, 0)), 5000);
    assert_eq!(normalize_fixed(&Vec3::new(3000, 4000, 0)), Vec3::new(600, 800, 0));
    assert_eq!(normalize_fixed(&Vec3::new(0, 0, 0)), Vec3::new(0, 1000, 0));
}

/// The error messages name the missing extension blocks.
#[test]
fn error_messages() {
    assert_eq!(
        VrmError::NotFoundVrmcVrm.message(),
        "Not found VRMC_vrm or VRMC_vrm_animation"
    );
    assert_eq!(VrmError::NotFoundVrmcSpringBone.message(), "Not found VRMC_springBone");
}

/// The binding pass is driven by change detection: it consumes the source's
/// change marker, so without a new pose nothing moves a second time.
#[test]
fn bind_consumes_the_change_marker() {
    let mut world = SceneWorld::new();
    let src = spawn_at(&mut world, "src", None, Transform::identity());
    let dst = spawn_at(&mut world, "dst", None, Transform::identity());
    world.nodes[src].retarget_source = true;
    world.nodes[src].retarget_bone_to = Some(dst);
    world.nodes[src].current_retargeting = true;
    world.nodes[src].rest_global_transform =
        Some(BoneRestGlobalTransform(Transform::from_xyz(0, 1000, 0)));
    world.nodes[dst].rest_global_transform =
        Some(BoneRestGlobalTransform(Transform::from_xyz(0, 1000, 0)));
    world.set_local_transform(src, Transform::from_xyz(1, 2, 3));
    assert!(world.nodes[src].transform_changed);

    bind_bone_rotations(&mut world);
    assert!(!world.nodes[src].transform_changed);
    assert!(world.nodes[dst].transform_changed);

    // overwrite the target by hand; without a fresh source change the next
    // pass does not touch it
    world.nodes[dst].transform_changed = false;
    world.nodes[dst].transform = Transform::from_xyz(7, 7, 7);
    bind_bone_rotations(&mut world);
    assert_eq!(world.nodes[dst].transform, Transform::from_xyz(7, 7, 7));
}
