//! The attachment and playback scenarios, on the scene model.

use bevy_vrma::math::{Transform, Vec3};
use bevy_vrma::system_param::vrm_animation_players::VrmaPlayer;
use bevy_vrma::vrm::humanoid_bone::HumanoidBoneRegistry;
use bevy_vrma::vrm::spring_bone::{
    attach_collider_shapes, attach_joint_props, attach_spring_roots, init_spring_joint_states,
    ColliderShape, SpringColliderRegistry, SpringJointPropsRegistry, SpringJointProps,
    SpringJointState, SpringNode, SpringNodeRegistry, SpringRoot,
};
use bevy_vrma::vrm::{Rig, VrmHipsBoneTo};
use bevy_vrma::vrma::animation::play::{
    observe_play_animation, observe_stop_animation, PlayVrma, StopVrma,
};
use bevy_vrma::vrma::animation::setup::setup_vrma_player;
use bevy_vrma::vrma::animation::{AnimationPlayer, VrmAnimationGraph};
use bevy_vrma::vrma::retarget::{calc_delta, calc_scaling, retarget_bones_to_vrm};
use bevy_vrma::vrma::VrmaEntity;
use bevy_vrma::world::SceneWorld;

fn empty_rig(root: usize) -> Rig {
    Rig::new(
        root,
        HumanoidBoneRegistry::default(),
        SpringJointPropsRegistry::default(),
        SpringColliderRegistry::default(),
        SpringNodeRegistry::default(),
    )
}

fn spawn_default(world: &mut SceneWorld, name: &str, parent: Option<usize>) -> usize {
    world.spawn(
        name.to_string(),
        parent,
        Transform::identity(),
        Transform::identity(),
    )
}

/// A rig whose spring registries all name "head", with "Root" and "head"
/// spawned below the rig root.
fn spawn_registry(world: &mut SceneWorld) -> (Rig, usize) {
    let rig_root = spawn_default(world, "VRM", None);
    spawn_default(world, "Root", Some(rig_root));
    let head = spawn_default(world, "head", Some(rig_root));
    let mut rig = empty_rig(rig_root);
    rig.spring_nodes = SpringNodeRegistry(vec![SpringNode {
        center: None,
        joints: vec!["head".to_string()],
        colliders: Vec::new(),
    }]);
    rig.collider_shapes =
        SpringColliderRegistry(vec![("head".to_string(), ColliderShape::default())]);
    rig.joint_props =
        SpringJointPropsRegistry(vec![("head".to_string(), SpringJointProps::default())]);
    (rig, head)
}

#[test]
fn test_attach_spring_root() {
    let mut world = SceneWorld::new();
    let rig_root = spawn_default(&mut world, "VRM", None);
    spawn_default(&mut world, "Root", Some(rig_root));
    let head = spawn_default(&mut world, "head", Some(rig_root));
    let mut rig = empty_rig(rig_root);
    rig.spring_nodes = SpringNodeRegistry(vec![SpringNode {
        center: None,
        joints: vec!["head".to_string()],
        colliders: Vec::new(),
    }]);

    let attached = attach_spring_roots(&mut world, &mut rig);

    assert_eq!(attached, vec![head]);
    assert_eq!(
        world.nodes[head].spring_root,
        Some(SpringRoot {
            center_node: None,
            joints: vec![head],
            colliders: Vec::new(),
        })
    );
}

#[test]
fn set_center_node_spring_root() {
    let mut world = SceneWorld::new();
    let rig_root = spawn_default(&mut world, "VRM", None);
    let center = spawn_default(&mut world, "center", Some(rig_root));
    let head = spawn_default(&mut world, "head", Some(rig_root));
    spawn_default(&mut world, "Root", Some(rig_root));
    let mut rig = empty_rig(rig_root);
    rig.spring_nodes = SpringNodeRegistry(vec![SpringNode {
        center: Some("center".to_string()),
        joints: vec!["head".to_string()],
        colliders: Vec::new(),
    }]);

    attach_spring_roots(&mut world, &mut rig);

    assert_eq!(
        world.nodes[head].spring_root,
        Some(SpringRoot {
            center_node: Some(center),
            joints: vec![head],
            colliders: Vec::new(),
        })
    );
}

#[test]
fn test_init_spring_joint_state() {
    let mut world = SceneWorld::new();
    let rig_root = spawn_default(&mut world, "VRM", None);
    spawn_default(&mut world, "Root", Some(rig_root));
    let head = world.spawn(
        "head".to_string(),
        Some(rig_root),
        Transform::from_xyz(0, 0, 0),
        Transform::identity(),
    );
    let tail = world.spawn(
        "tail".to_string(),
        Some(rig_root),
        Transform::from_xyz(0, 2000, 0),
        Transform::identity(),
    );
    let mut rig = empty_rig(rig_root);
    rig.spring_nodes = SpringNodeRegistry(vec![SpringNode {
        center: None,
        joints: vec!["head".to_string(), "tail".to_string()],
        colliders: Vec::new(),
    }]);

    let attached = attach_spring_roots(&mut world, &mut rig);
    assert_eq!(attached, vec![head]);
    init_spring_joint_states(&mut world, head);

    assert_eq!(
        world.nodes[head].joint_state,
        Some(SpringJointState {
            current_tail: Vec3::new(0, 2000, 0),
            prev_tail: Vec3::new(0, 2000, 0),
            bone_axis: Vec3::new(0, 1000, 0),
            bone_length: 2000,
            initial_local_transform: Transform::from_xyz(0, 2000, 0),
            ..SpringJointState::default()
        })
    );
    assert_eq!(world.nodes[tail].joint_state, None);
}

#[test]
fn has_been_attached_joint_props() {
    let mut world = SceneWorld::new();
    let (mut rig, head) = spawn_registry(&mut world);
    attach_joint_props(&mut world, &mut rig);
    assert!(rig.gates.attached_joint_props);
    assert_eq!(world.nodes[head].joint_props, Some(SpringJointProps::default()));
}

#[test]
fn has_been_attached_collider_shapes() {
    let mut world = SceneWorld::new();
    let (mut rig, head) = spawn_registry(&mut world);
    attach_collider_shapes(&mut world, &mut rig);
    assert!(rig.gates.attached_collider_shapes);
    assert_eq!(world.nodes[head].collider_shape, Some(ColliderShape::default()));
}

#[test]
fn has_been_attached_spring_roots() {
    let mut world = SceneWorld::new();
    let (mut rig, _head) = spawn_registry(&mut world);
    attach_spring_roots(&mut world, &mut rig);
    assert!(rig.gates.attached_spring_roots);
}

fn player_of(world: &SceneWorld, player: usize) -> &AnimationPlayer {
    world.nodes[player].animation_player.as_ref().unwrap()
}

#[test]
fn run_players() {
    let mut world = SceneWorld::new();
    let vrma = spawn_default(&mut world, "VRMA", None);
    let p1 = spawn_default(&mut world, "player", Some(vrma));
    let other = spawn_default(&mut world, "other", None);
    world.nodes[p1].animation_player = Some(AnimationPlayer::default());
    world.nodes[other].animation_player = Some(AnimationPlayer::default());
    world.nodes[vrma].animation_player_entity_to = Some(p1);
    world.nodes[vrma].animation_graph = Some(VrmAnimationGraph { handle: 0, nodes: vec![1] });

    VrmaPlayer::play(&mut world, VrmaEntity(vrma), false);

    assert!(!player_of(&world, p1).all_finished());
    assert!(player_of(&world, other).all_finished());
}

#[test]
fn stop_all() {
    let mut world = SceneWorld::new();
    let vrma = spawn_default(&mut world, "VRMA", None);
    let p1 = spawn_default(&mut world, "player", Some(vrma));
    world.nodes[p1].animation_player = Some(AnimationPlayer::default());
    world.nodes[vrma].animation_player_entity_to = Some(p1);
    world.nodes[vrma].animation_graph = Some(VrmAnimationGraph { handle: 0, nodes: vec![1] });

    VrmaPlayer::play(&mut world, VrmaEntity(vrma), false);
    assert!(!player_of(&world, p1).all_finished());
    VrmaPlayer::stop(&mut world, VrmaEntity(vrma));
    assert!(player_of(&world, p1).all_finished());
}

/// A model rig root with one animation rig below it, whose player node is
/// spawned one level deeper.
fn spawn_vrm_with_vrma(world: &mut SceneWorld) -> (usize, usize, usize) {
    let vrm = spawn_default(world, "VRM", None);
    world.set_rig_markers(vrm, true, false);
    let vrma = spawn_default(world, "VRMA", Some(vrm));
    world.set_rig_markers(vrma, false, true);
    world.nodes[vrma].animation_graph = Some(VrmAnimationGraph { handle: 0, nodes: vec![0] });
    let player = spawn_default(world, "player", Some(vrma));
    world.nodes[player].animation_player = Some(AnimationPlayer::default());
    (vrm, vrma, player)
}

#[test]
fn play_vrma() {
    let mut world = SceneWorld::new();
    let (vrm, vrma, player) = spawn_vrm_with_vrma(&mut world);
    setup_vrma_player(&mut world, player);
    observe_play_animation(
        &mut world,
        vrm,
        &PlayVrma { vrma: VrmaEntity(vrma), repeat: false },
    );
    assert!(!player_of(&world, player).all_finished());
}

#[test]
fn stop_others() {
    let mut world = SceneWorld::new();
    let vrm = spawn_default(&mut world, "VRM", None);
    world.set_rig_markers(vrm, true, false);
    let vrma1 = spawn_default(&mut world, "VRMA-1", Some(vrm));
    world.set_rig_markers(vrma1, false, true);
    world.nodes[vrma1].animation_graph = Some(VrmAnimationGraph { handle: 0, nodes: vec![0] });
    let player1 = spawn_default(&mut world, "player-1", Some(vrma1));
    world.nodes[player1].animation_player = Some(AnimationPlayer::default());
    let vrma2 = spawn_default(&mut world, "VRMA-2", Some(vrm));
    world.set_rig_markers(vrma2, false, true);
    world.nodes[vrma2].animation_graph = Some(VrmAnimationGraph { handle: 0, nodes: vec![0] });
    let player2 = spawn_default(&mut world, "player-2", Some(vrma2));
    world.nodes[player2].animation_player = Some(AnimationPlayer::default());
    setup_vrma_player(&mut world, player1);
    setup_vrma_player(&mut world, player2);

    observe_play_animation(
        &mut world,
        vrm,
        &PlayVrma { vrma: VrmaEntity(vrma1), repeat: false },
    );
    observe_play_animation(
        &mut world,
        vrm,
        &PlayVrma { vrma: VrmaEntity(vrma2), repeat: false },
    );

    assert!(player_of(&world, player1).all_finished());
    assert!(!player_of(&world, player2).all_finished());
}

#[test]
fn stop_vrma() {
    let mut world = SceneWorld::new();
    let (vrm, vrma, player) = spawn_vrm_with_vrma(&mut world);
    setup_vrma_player(&mut world, player);
    observe_play_animation(
        &mut world,
        vrm,
        &PlayVrma { vrma: VrmaEntity(vrma), repeat: false },
    );
    observe_stop_animation(&mut world, vrm, &StopVrma);
    assert!(player_of(&world, player).all_finished());
}

#[test]
fn setup_animation_player() {
    let mut world = SceneWorld::new();
    let graph_holder = spawn_default(&mut world, "VRMA", None);
    world.nodes[graph_holder].animation_graph =
        Some(VrmAnimationGraph { handle: 7, nodes: Vec::new() });
    let player = spawn_default(&mut world, "player", Some(graph_holder));
    world.nodes[player].animation_player = Some(AnimationPlayer::default());

    setup_vrma_player(&mut world, player);

    assert_eq!(world.nodes[graph_holder].animation_player_entity_to, Some(player));
    assert_eq!(world.nodes[player].graph_handle, Some(7));
}

#[test]
fn test_scaling() {
    let scaling = calc_scaling(Vec3::new(1000, 1000, 1000), Vec3::new(2000, 2000, 2000));
    assert_eq!(scaling, 500);
}

#[test]
fn test_delta() {
    let delta = calc_delta(Vec3::new(1000, 1000, 1000), Vec3::new(2000, 2000, 2000));
    assert_eq!(delta, Vec3::new(-1000, -1000, -1000));
}

#[test]
fn has_been_attached_humanoid_bones() {
    let mut world = SceneWorld::new();
    let vrm = spawn_default(&mut world, "VRM", None);
    let hips = spawn_default(&mut world, "hips", Some(vrm));
    let mut target = empty_rig(vrm);
    target.hips_bone_to = Some(VrmHipsBoneTo(hips));
    let source_root = spawn_default(&mut world, "VRMA", None);
    let mut source = empty_rig(source_root);
    source.retarget_to = Some(vrm);
    source.gates.humanoid_bones_attached = true;

    retarget_bones_to_vrm(&mut world, &mut source, &target);

    assert!(source.gates.retargeted_human_bones);
}
