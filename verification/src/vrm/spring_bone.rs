//! Secondary-motion ("spring") chain data and the passes that attach joint
//! properties, collider shapes and spring roots to a rig, then seed the
//! physics state of each new chain.

use vstd::prelude::*;
use crate::math::{spec_norm, spec_normalize, norm_fixed, normalize_fixed, Transform, Quat, Vec3};
use crate::vrm::{AttachmentGates, Rig};
use crate::world::{
    lemma_resolve_props, resolve_against, same_tree_shape, spec_all_bones_spawned, spec_resolve,
    spec_kv_resolves_to, spec_kv_winner, Node, SceneWorld,
};

verus! {

/// Physics properties of one spring joint, in fixed-point units.
#[derive(Debug, Clone, Copy, PartialEq, Eq, Structural)]
pub struct SpringJointProps {
    pub stiffness: i64,
    pub gravity_power: i64,
    pub drag_force: i64,
    pub hit_radius: i64,
}

impl Default for SpringJointProps {
    /// All-zero properties.
    fn default() -> (r: Self)
        ensures
            r == (SpringJointProps {
                stiffness: 0i64,
                gravity_power: 0i64,
                drag_force: 0i64,
                hit_radius: 0i64,
            }),
    {
        SpringJointProps { stiffness: 0, gravity_power: 0, drag_force: 0, hit_radius: 0 }
    }
}

/// A collision proxy carried by a node, in fixed-point units.
#[derive(Debug, Clone, Copy, PartialEq, Eq, Structural)]
pub struct ColliderShape {
    pub offset: Vec3,
    pub radius: i64,
}

impl Default for ColliderShape {
    /// A point collider at the node's origin.
    fn default() -> (r: Self)
        ensures
            r == (ColliderShape { offset: Vec3 { x: 0i64, y: 0i64, z: 0i64 }, radius: 0i64 }),
    {
        ColliderShape { offset: Vec3 { x: 0, y: 0, z: 0 }, radius: 0 }
    }
}

/// One declared spring chain, by node name: an optional center reference, the
/// ordered joint names (root to tip), and the collider names.
#[derive(Debug, Clone, PartialEq, Eq)]
pub struct SpringNode {
    pub center: Option<String>,
    pub joints: Vec<String>,
    pub colliders: Vec<String>,
}

impl Default for SpringNode {
    /// An empty definition.
    fn default() -> (r: Self)
        ensures
            r.center is None,
            r.joints@.len() == 0,
            r.colliders@.len() == 0,
    {
        SpringNode { center: None, joints: Vec::new(), colliders: Vec::new() }
    }
}

/// The declared spring chains of a rig.
#[derive(Debug, Clone, PartialEq, Eq)]
pub struct SpringNodeRegistry(pub Vec<SpringNode>);

impl Default for SpringNodeRegistry {
    /// No chains.
    fn default() -> (r: Self)
        ensures
            r.0@.len() == 0,
    {
        SpringNodeRegistry(Vec::new())
    }
}

/// Per-node spring joint properties, keyed by node name.
#[derive(Debug, Clone, PartialEq, Eq)]
pub struct SpringJointPropsRegistry(pub Vec<(String, SpringJointProps)>);

impl Default for SpringJointPropsRegistry {
    /// No entries.
    fn default() -> (r: Self)
        ensures
            r.0@.len() == 0,
    {
        SpringJointPropsRegistry(Vec::new())
    }
}

/// Per-node collider shapes, keyed by node name.
#[derive(Debug, Clone, PartialEq, Eq)]
pub struct SpringColliderRegistry(pub Vec<(String, ColliderShape)>);

impl Default for SpringColliderRegistry {
    /// No entries.
    fn default() -> (r: Self)
        ensures
            r.0@.len() == 0,
    {
        SpringColliderRegistry(Vec::new())
    }
}

/// A resolved spring chain: the ordered joint nodes (root to tip), an optional
/// center node, and the resolved collider nodes. It is attached to its first
/// joint, which is its identity.
#[derive(Debug, Clone, PartialEq, Eq)]
pub struct SpringRoot {
    pub center_node: Option<usize>,
    pub joints: Vec<usize>,
    pub colliders: Vec<usize>,
}

impl Default for SpringRoot {
    /// An empty chain value (never attached; attached chains are non-empty).
    fn default() -> (r: Self)
        ensures
            r.center_node is None,
            r.joints@.len() == 0,
            r.colliders@.len() == 0,
    {
        SpringRoot { center_node: None, joints: Vec::new(), colliders: Vec::new() }
    }
}

/// The seeded physics state of one chain segment: the segment from the node
/// holding this state toward the next joint in the chain.
#[derive(Debug, Clone, Copy, PartialEq, Eq, Structural)]
pub struct SpringJointState {
    pub prev_tail: Vec3,
    pub current_tail: Vec3,
    pub bone_axis: Vec3,
    pub bone_length: i64,
    /// The joint's local transform at capture time; its matrix form, when the
    /// integrator needs one, is a derived value of this.
    pub initial_local_transform: Transform,
    pub initial_local_rotation: Quat,
}

impl Default for SpringJointState {
    /// Zero tails and axis, identity initial transforms.
    fn default() -> (r: Self)
        ensures
            r.prev_tail == (Vec3 { x: 0i64, y: 0i64, z: 0i64 }),
            r.current_tail == (Vec3 { x: 0i64, y: 0i64, z: 0i64 }),
            r.bone_axis == (Vec3 { x: 0i64, y: 0i64, z: 0i64 }),
            r.bone_length == 0,
            r.initial_local_transform.translation == (Vec3 { x: 0i64, y: 0i64, z: 0i64 }),
            r.initial_local_rotation == (Quat { x: 0i64, y: 0i64, z: 0i64, w: crate::SCALE }),
    {
        SpringJointState {
            prev_tail: Vec3 { x: 0, y: 0, z: 0 },
            current_tail: Vec3 { x: 0, y: 0, z: 0 },
            bone_axis: Vec3 { x: 0, y: 0, z: 0 },
            bone_length: 0,
            initial_local_transform: Transform::identity(),
            initial_local_rotation: Quat::identity(),
        }
    }
}

/// Whether a spring stage runs on this rig: its own gate is unset and every
/// bone name of the rig's registry resolves (the full-skeleton readiness
/// check, stricter than the humanoid stage's).
pub open spec fn spec_spring_stage_ready(nodes0: Seq<Node>, rig: Rig, gate: bool) -> bool {
    !gate && spec_all_bones_spawned(nodes0, rig.root as int, rig.bones.0@)
}

/// Node `i` after the first `upto` joint-property entries have been processed:
/// if any entry resolved to it, it carries the last such entry's properties.
pub open spec fn spec_node_after_joint_props(
    nodes0: Seq<Node>,
    root: int,
    reg: Seq<(String, SpringJointProps)>,
    upto: int,
    i: int,
) -> Node {
    match spec_kv_winner(nodes0, root, reg, upto, i) {
        Some(w) => Node { joint_props: Some(reg[w].1), ..nodes0[i] },
        None => nodes0[i],
    }
}

/// Node `i` after the first `upto` collider entries have been processed.
pub open spec fn spec_node_after_colliders(
    nodes0: Seq<Node>,
    root: int,
    reg: Seq<(String, ColliderShape)>,
    upto: int,
    i: int,
) -> Node {
    match spec_kv_winner(nodes0, root, reg, upto, i) {
        Some(w) => Node { collider_shape: Some(reg[w].1), ..nodes0[i] },
        None => nodes0[i],
    }
}

/// The joint-property attachment pass for one rig.
///
/// If the rig's gate is set or not every bone name resolves yet, nothing
/// happens. Otherwise each (node name, properties) entry that resolves puts
/// its properties on its node, unresolved entries are skipped, and the rig's
/// flag is set.
pub fn attach_joint_props(world: &mut SceneWorld, rig: &mut Rig)
    requires
        old(world).wf(),
        old(rig).root < old(world).nodes@.len(),
    ensures
        final(world).wf(),
        final(world).nodes@.len() == old(world).nodes@.len(),
        !spec_spring_stage_ready(
            old(world).nodes@,
            *old(rig),
            old(rig).gates.attached_joint_props,
        ) ==> {
            &&& final(world).nodes@ == old(world).nodes@
            &&& *final(rig) == *old(rig)
        },
        spec_spring_stage_ready(
            old(world).nodes@,
            *old(rig),
            old(rig).gates.attached_joint_props,
        ) ==> {
            let nodes0 = old(world).nodes@;
            let root = old(rig).root as int;
            let reg = old(rig).joint_props.0@;
            &&& forall|i: int|
                0 <= i < nodes0.len() ==> final(world).nodes@[i] == spec_node_after_joint_props(
                    nodes0,
                    root,
                    reg,
                    reg.len() as int,
                    i,
                )
            &&& *final(rig) == (Rig {
                gates: AttachmentGates { attached_joint_props: true, ..old(rig).gates },
                ..*old(rig)
            })
        },
{
    if rig.gates.attached_joint_props {
        return;
    }
    if !world.has_been_spawned_all_bones(rig.root, &rig.bones) {
        return;
    }
    let ghost nodes0 = world.nodes@;
    let ghost root_g = rig.root as int;
    let ghost reg = rig.joint_props.0@;
    let n = rig.joint_props.0.len();
    let mut k: usize = 0;
    while k < n
        invariant
            world.wf(),
            world.nodes@.len() == nodes0.len(),
            rig.root < nodes0.len(),
            root_g == rig.root as int,
            reg == rig.joint_props.0@,
            n == reg.len(),
            k <= n,
            *rig == *old(rig),
            forall|i: int|
                0 <= i < nodes0.len() ==> world.nodes@[i] == spec_node_after_joint_props(
                    nodes0,
                    root_g,
                    reg,
                    k as int,
                    i,
                ),
        decreases n - k,
    {
        proof {
            assert forall|i: int| 0 <= i < nodes0.len() implies (#[trigger] world.nodes@[i]).name@
                == nodes0[i].name@ && world.nodes@[i].parent == nodes0[i].parent by {
                assert(world.nodes@[i] == spec_node_after_joint_props(
                    nodes0,
                    root_g,
                    reg,
                    k as int,
                    i,
                ));
            }
        }
        let found = resolve_against(world, rig.root, &rig.joint_props.0[k].0, Ghost(nodes0));
        let ghost ki = k as int;
        let ghost upto = k as int + 1;
        match found {
            Some(i) => {
                let props = rig.joint_props.0[k].1;
                let nd = &mut world.nodes[i];
                nd.joint_props = Some(props);
                proof {
                    assert(spec_kv_resolves_to(nodes0, root_g, reg, ki, i as int));
                    assert forall|j: int| 0 <= j < nodes0.len() implies world.nodes@[j]
                        == spec_node_after_joint_props(nodes0, root_g, reg, upto, j) by {
                        if j == i as int {
                            assert(spec_kv_winner(nodes0, root_g, reg, upto, j) == Some(ki));
                        } else {
                            assert(!spec_kv_resolves_to(nodes0, root_g, reg, ki, j));
                            assert(spec_kv_winner(nodes0, root_g, reg, upto, j) == spec_kv_winner(
                                nodes0,
                                root_g,
                                reg,
                                ki,
                                j,
                            ));
                        }
                    }
                }
            },
            None => {
                proof {
                    assert forall|j: int| 0 <= j < nodes0.len() implies world.nodes@[j]
                        == spec_node_after_joint_props(nodes0, root_g, reg, upto, j) by {
                        assert(!spec_kv_resolves_to(nodes0, root_g, reg, ki, j));
                        assert(spec_kv_winner(nodes0, root_g, reg, upto, j) == spec_kv_winner(
                            nodes0,
                            root_g,
                            reg,
                            ki,
                            j,
                        ));
                    }
                }
            },
        }
        k = k + 1;
    }
    rig.gates.attached_joint_props = true;
}

/// The collider-shape attachment pass for one rig; symmetric to
/// [`attach_joint_props`], writing collider shapes under its own gate.
pub fn attach_collider_shapes(world: &mut SceneWorld, rig: &mut Rig)
    requires
        old(world).wf(),
        old(rig).root < old(world).nodes@.len(),
    ensures
        final(world).wf(),
        final(world).nodes@.len() == old(world).nodes@.len(),
        !spec_spring_stage_ready(
            old(world).nodes@,
            *old(rig),
            old(rig).gates.attached_collider_shapes,
        ) ==> {
            &&& final(world).nodes@ == old(world).nodes@
            &&& *final(rig) == *old(rig)
        },
        spec_spring_stage_ready(
            old(world).nodes@,
            *old(rig),
            old(rig).gates.attached_collider_shapes,
        ) ==> {
            let nodes0 = old(world).nodes@;
            let root = old(rig).root as int;
            let reg = old(rig).collider_shapes.0@;
            &&& forall|i: int|
                0 <= i < nodes0.len() ==> final(world).nodes@[i] == spec_node_after_colliders(
                    nodes0,
                    root,
                    reg,
                    reg.len() as int,
                    i,
                )
            &&& *final(rig) == (Rig {
                gates: AttachmentGates { attached_collider_shapes: true, ..old(rig).gates },
                ..*old(rig)
            })
        },
{
    if rig.gates.attached_collider_shapes {
        return;
    }
    if !world.has_been_spawned_all_bones(rig.root, &rig.bones) {
        return;
    }
    let ghost nodes0 = world.nodes@;
    let ghost root_g = rig.root as int;
    let ghost reg = rig.collider_shapes.0@;
    let n = rig.collider_shapes.0.len();
    let mut k: usize = 0;
    while k < n
        invariant
            world.wf(),
            world.nodes@.len() == nodes0.len(),
            rig.root < nodes0.len(),
            root_g == rig.root as int,
            reg == rig.collider_shapes.0@,
            n == reg.len(),
            k <= n,
            *rig == *old(rig),
            forall|i: int|
                0 <= i < nodes0.len() ==> world.nodes@[i] == spec_node_after_colliders(
                    nodes0,
                    root_g,
                    reg,
                    k as int,
                    i,
                ),
        decreases n - k,
    {
        proof {
            assert forall|i: int| 0 <= i < nodes0.len() implies (#[trigger] world.nodes@[i]).name@
                == nodes0[i].name@ && world.nodes@[i].parent == nodes0[i].parent by {
                assert(world.nodes@[i] == spec_node_after_colliders(
                    nodes0,
                    root_g,
                    reg,
                    k as int,
                    i,
                ));
            }
        }
        let found = resolve_against(world, rig.root, &rig.collider_shapes.0[k].0, Ghost(nodes0));
        let ghost ki = k as int;
        let ghost upto = k as int + 1;
        match found {
            Some(i) => {
                let shape = rig.collider_shapes.0[k].1;
                let nd = &mut world.nodes[i];
                nd.collider_shape = Some(shape);
                proof {
                    assert(spec_kv_resolves_to(nodes0, root_g, reg, ki, i as int));
                    assert forall|j: int| 0 <= j < nodes0.len() implies world.nodes@[j]
                        == spec_node_after_colliders(nodes0, root_g, reg, upto, j) by {
                        if j == i as int {
                            assert(spec_kv_winner(nodes0, root_g, reg, upto, j) == Some(ki));
                        } else {
                            assert(!spec_kv_resolves_to(nodes0, root_g, reg, ki, j));
                            assert(spec_kv_winner(nodes0, root_g, reg, upto, j) == spec_kv_winner(
                                nodes0,
                                root_g,
                                reg,
                                ki,
                                j,
                            ));
                        }
                    }
                }
            },
            None => {
                proof {
                    assert forall|j: int| 0 <= j < nodes0.len() implies world.nodes@[j]
                        == spec_node_after_colliders(nodes0, root_g, reg, upto, j) by {
                        assert(!spec_kv_resolves_to(nodes0, root_g, reg, ki, j));
                        assert(spec_kv_winner(nodes0, root_g, reg, upto, j) == spec_kv_winner(
                            nodes0,
                            root_g,
                            reg,
                            ki,
                            j,
                        ));
                    }
                }
            },
        }
        k = k + 1;
    }
    rig.gates.attached_collider_shapes = true;
}

/// The node indices a list of names resolves to, in order, unresolved names
/// dropped.
pub open spec fn spec_resolved_list(nodes0: Seq<Node>, root: int, names: Seq<String>) -> Seq<int>
    decreases names.len(),
{
    if names.len() == 0 {
        Seq::empty()
    } else {
        let rest = spec_resolved_list(nodes0, root, names.drop_last());
        match spec_resolve(nodes0, root, names.last()@) {
            Some(i) => rest.push(i),
            None => rest,
        }
    }
}

/// How many of the names resolve.
pub open spec fn spec_resolvable_count(nodes0: Seq<Node>, root: int, names: Seq<String>) -> nat
    decreases names.len(),
{
    if names.len() == 0 {
        0
    } else {
        spec_resolvable_count(nodes0, root, names.drop_last()) + (
        if spec_resolve(nodes0, root, names.last()@) is Some {
            1nat
        } else {
            0nat
        })
    }
}

/// A spring definition with `j` resolvable joint names yields a chain of
/// exactly `j` joints, and one where none resolve yields no chain at all: its
/// first joint, the attachment point, does not exist.
pub proof fn lemma_spring_chain_count(nodes0: Seq<Node>, root: int, def: SpringNode)
    ensures
        spec_resolved_list(nodes0, root, def.joints@).len() == spec_resolvable_count(
            nodes0,
            root,
            def.joints@,
        ),
        spec_resolvable_count(nodes0, root, def.joints@) == 0 ==> spec_def_first_joint(
            nodes0,
            root,
            def,
        ) is None,
{
    lemma_resolved_list_len(nodes0, root, def.joints@);
}

pub proof fn lemma_resolved_list_len(nodes0: Seq<Node>, root: int, names: Seq<String>)
    ensures
        spec_resolved_list(nodes0, root, names).len() == spec_resolvable_count(nodes0, root, names),
    decreases names.len(),
{
    if names.len() > 0 {
        lemma_resolved_list_len(nodes0, root, names.drop_last());
    }
}

/// Every resolved index is a node of the scene.
pub proof fn lemma_resolved_list_bounds(nodes0: Seq<Node>, root: int, names: Seq<String>)
    ensures
        forall|p: int|
            0 <= p < spec_resolved_list(nodes0, root, names).len() ==> 0 <= #[trigger]
                spec_resolved_list(nodes0, root, names)[p] < nodes0.len(),
    decreases names.len(),
{
    if names.len() > 0 {
        lemma_resolved_list_bounds(nodes0, root, names.drop_last());
        lemma_resolve_props(nodes0, root, names.last()@);
        let whole = spec_resolved_list(nodes0, root, names);
        let rest = spec_resolved_list(nodes0, root, names.drop_last());
        assert forall|p: int| 0 <= p < whole.len() implies 0 <= #[trigger] whole[p]
            < nodes0.len() by {
            if p < rest.len() {
                assert(whole[p] == rest[p]);
            }
        }
    }
}

/// The node a spring definition attaches to: its first resolved joint.
pub open spec fn spec_def_first_joint(nodes0: Seq<Node>, root: int, def: SpringNode) -> Option<
    int,
> {
    let l = spec_resolved_list(nodes0, root, def.joints@);
    if l.len() > 0 {
        Some(l[0])
    } else {
        None
    }
}

/// Definition `d` attaches its chain to node `i`.
pub open spec fn spec_def_attaches_to(
    nodes0: Seq<Node>,
    root: int,
    defs: Seq<SpringNode>,
    d: int,
    i: int,
) -> bool {
    0 <= d < defs.len() && spec_def_first_joint(nodes0, root, defs[d]) == Some(i)
}

/// The last definition among the first `upto` that attaches to node `i`.
pub open spec fn spec_def_winner(
    nodes0: Seq<Node>,
    root: int,
    defs: Seq<SpringNode>,
    upto: int,
    i: int,
) -> Option<int>
    decreases upto,
{
    if upto <= 0 {
        None
    } else if spec_def_attaches_to(nodes0, root, defs, upto - 1, i) {
        Some(upto - 1)
    } else {
        spec_def_winner(nodes0, root, defs, upto - 1, i)
    }
}

/// If definition `d` attaches to node `i` and no later definition does, `d`
/// wins: together with the pass's contract, a definition with `j > 0`
/// resolvable joint names whose first resolved joint no later definition
/// claims leaves on that joint a chain of exactly its `j` resolved joints.
pub proof fn lemma_spring_chain_attached(
    nodes0: Seq<Node>,
    root: int,
    defs: Seq<SpringNode>,
    d: int,
    i: int,
)
    requires
        spec_def_attaches_to(nodes0, root, defs, d, i),
        forall|d2: int| d < d2 < defs.len() ==> !spec_def_attaches_to(nodes0, root, defs, d2, i),
    ensures
        spec_def_winner(nodes0, root, defs, defs.len() as int, i) == Some(d),
{
    lemma_def_winner_last(nodes0, root, defs, defs.len() as int, d, i);
}

pub proof fn lemma_def_winner_last(
    nodes0: Seq<Node>,
    root: int,
    defs: Seq<SpringNode>,
    upto: int,
    d: int,
    i: int,
)
    requires
        0 <= d < upto <= defs.len(),
        spec_def_attaches_to(nodes0, root, defs, d, i),
        forall|d2: int| d < d2 < upto ==> !spec_def_attaches_to(nodes0, root, defs, d2, i),
    ensures
        spec_def_winner(nodes0, root, defs, upto, i) == Some(d),
    decreases upto,
{
    if upto - 1 > d {
        lemma_def_winner_last(nodes0, root, defs, upto - 1, d, i);
    }
}

/// No winning definition means no definition attaches to the node.
pub proof fn lemma_def_winner_none(
    nodes0: Seq<Node>,
    root: int,
    defs: Seq<SpringNode>,
    upto: int,
    i: int,
)
    ensures
        (spec_def_winner(nodes0, root, defs, upto, i) is None) == (forall|d: int|
            0 <= d < upto ==> !spec_def_attaches_to(nodes0, root, defs, d, i)),
    decreases upto,
{
    if upto > 0 {
        lemma_def_winner_none(nodes0, root, defs, upto - 1, i);
    }
}

/// A sequence of usizes as mathematical integers.
pub open spec fn seq_usize_ints(s: Seq<usize>) -> Seq<int> {
    s.map_values(|u: usize| u as int)
}

/// A built chain matches its definition: joints and colliders are exactly the
/// resolved name lists, and the center is the resolved center name, if any.
pub open spec fn spec_chain_matches(
    nodes0: Seq<Node>,
    root: int,
    def: SpringNode,
    sr: SpringRoot,
) -> bool {
    &&& seq_usize_ints(sr.joints@) == spec_resolved_list(nodes0, root, def.joints@)
    &&& seq_usize_ints(sr.colliders@) == spec_resolved_list(nodes0, root, def.colliders@)
    &&& match def.center {
        Some(c) => match spec_resolve(nodes0, root, c@) {
            Some(ci) => sr.center_node matches Some(x) && x == ci,
            None => sr.center_node is None,
        },
        None => sr.center_node is None,
    }
}

/// Node `cur` (at index `i`) is what the spring-root pass leaves behind after
/// the first `upto` definitions: the last definition attaching to it put its
/// chain there, or it is untouched.
pub open spec fn spec_spring_node_state(
    nodes0: Seq<Node>,
    root: int,
    defs: Seq<SpringNode>,
    upto: int,
    cur: Node,
    i: int,
) -> bool {
    match spec_def_winner(nodes0, root, defs, upto, i) {
        Some(d) => {
            &&& cur.spring_root matches Some(sr) && spec_chain_matches(nodes0, root, defs[d], sr)
            &&& cur == (Node { spring_root: cur.spring_root, ..nodes0[i] })
        },
        None => cur == nodes0[i],
    }
}

/// The chain roots the pass attaches, in definition order.
pub open spec fn spec_attached_roots(
    nodes0: Seq<Node>,
    root: int,
    defs: Seq<SpringNode>,
    upto: int,
) -> Seq<int>
    decreases upto,
{
    if upto <= 0 {
        Seq::empty()
    } else {
        let rest = spec_attached_roots(nodes0, root, defs, upto - 1);
        match spec_def_first_joint(nodes0, root, defs[upto - 1]) {
            Some(i) => rest.push(i),
            None => rest,
        }
    }
}

/// Resolves a list of names under `root`, dropping unresolved ones.
fn resolve_name_list(
    world: &SceneWorld,
    root: usize,
    names: &Vec<String>,
    Ghost(nodes0): Ghost<Seq<Node>>,
) -> (r: Vec<usize>)
    requires
        world.wf(),
        root < world.nodes@.len(),
        same_tree_shape(world.nodes@, nodes0),
    ensures
        seq_usize_ints(r@) == spec_resolved_list(nodes0, root as int, names@),
        forall|p: int| 0 <= p < r@.len() ==> (#[trigger] r@[p]) < nodes0.len(),
{
    let mut out: Vec<usize> = Vec::new();
    let mut k: usize = 0;
    while k < names.len()
        invariant
            world.wf(),
            root < world.nodes@.len(),
            same_tree_shape(world.nodes@, nodes0),
            k <= names@.len(),
            seq_usize_ints(out@) == spec_resolved_list(
                nodes0,
                root as int,
                names@.subrange(0, k as int),
            ),
            forall|p: int| 0 <= p < out@.len() ==> (#[trigger] out@[p]) < nodes0.len(),
        decreases names@.len() - k,
    {
        proof {
            assert(names@.subrange(0, k as int + 1).drop_last() =~= names@.subrange(0, k as int));
            assert(names@.subrange(0, k as int + 1).last() == names@[k as int]);
        }
        match resolve_against(world, root, &names[k], Ghost(nodes0)) {
            Some(i) => {
                out.push(i);
                proof {
                    assert(seq_usize_ints(out@) =~= spec_resolved_list(
                        nodes0,
                        root as int,
                        names@.subrange(0, k as int + 1),
                    ));
                }
            },
            None => {},
        }
        k = k + 1;
    }
    proof {
        assert(names@.subrange(0, names@.len() as int) =~= names@);
    }
    out
}

/// The spring-root construction pass for one rig.
///
/// If the rig's gate is set or not every bone name resolves yet, nothing
/// happens and no chain root is returned. Otherwise each declared spring
/// definition is resolved: unresolved joints and colliders are dropped, a
/// definition whose joint list resolves to nothing is discarded, and every
/// other definition's chain is attached to its first resolved joint. The
/// rig's flag is then set, and the attached chain roots are returned in
/// definition order.
pub fn attach_spring_roots(world: &mut SceneWorld, rig: &mut Rig) -> (attached: Vec<usize>)
    requires
        old(world).wf(),
        old(rig).root < old(world).nodes@.len(),
    ensures
        final(world).wf(),
        final(world).nodes@.len() == old(world).nodes@.len(),
        !spec_spring_stage_ready(
            old(world).nodes@,
            *old(rig),
            old(rig).gates.attached_spring_roots,
        ) ==> {
            &&& final(world).nodes@ == old(world).nodes@
            &&& *final(rig) == *old(rig)
            &&& attached@.len() == 0
        },
        spec_spring_stage_ready(
            old(world).nodes@,
            *old(rig),
            old(rig).gates.attached_spring_roots,
        ) ==> {
            let nodes0 = old(world).nodes@;
            let root = old(rig).root as int;
            let defs = old(rig).spring_nodes.0@;
            &&& forall|i: int|
                0 <= i < nodes0.len() ==> spec_spring_node_state(
                    nodes0,
                    root,
                    defs,
                    defs.len() as int,
                    #[trigger] final(world).nodes@[i],
                    i,
                )
            &&& *final(rig) == (Rig {
                gates: AttachmentGates { attached_spring_roots: true, ..old(rig).gates },
                ..*old(rig)
            })
            &&& seq_usize_ints(attached@) == spec_attached_roots(
                nodes0,
                root,
                defs,
                defs.len() as int,
            )
            &&& forall|p: int| 0 <= p < attached@.len() ==> (#[trigger] attached@[p]) < nodes0.len()
        },
{
    if rig.gates.attached_spring_roots {
        return Vec::new();
    }
    if !world.has_been_spawned_all_bones(rig.root, &rig.bones) {
        return Vec::new();
    }
    let ghost nodes0 = world.nodes@;
    let ghost root_g = rig.root as int;
    let ghost defs = rig.spring_nodes.0@;
    let n = rig.spring_nodes.0.len();
    let mut attached: Vec<usize> = Vec::new();
    let mut d: usize = 0;
    while d < n
        invariant
            world.wf(),
            world.nodes@.len() == nodes0.len(),
            rig.root < nodes0.len(),
            root_g == rig.root as int,
            defs == rig.spring_nodes.0@,
            n == defs.len(),
            d <= n,
            *rig == *old(rig),
            forall|i: int|
                0 <= i < nodes0.len() ==> spec_spring_node_state(
                    nodes0,
                    root_g,
                    defs,
                    d as int,
                    #[trigger] world.nodes@[i],
                    i,
                ),
            seq_usize_ints(attached@) == spec_attached_roots(nodes0, root_g, defs, d as int),
            forall|p: int| 0 <= p < attached@.len() ==> (#[trigger] attached@[p]) < nodes0.len(),
        decreases n - d,
    {
        proof {
            assert forall|i: int| 0 <= i < nodes0.len() implies (#[trigger] world.nodes@[i]).name@
                == nodes0[i].name@ && world.nodes@[i].parent == nodes0[i].parent by {
                assert(spec_spring_node_state(
                    nodes0,
                    root_g,
                    defs,
                    d as int,
                    world.nodes@[i],
                    i,
                ));
            }
        }
        let ghost di = d as int;
        let ghost upto = d as int + 1;
        let center_node: Option<usize> = match &rig.spring_nodes.0[d].center {
            Some(c) => resolve_against(world, rig.root, c, Ghost(nodes0)),
            None => None,
        };
        let joints = resolve_name_list(world, rig.root, &rig.spring_nodes.0[d].joints, Ghost(nodes0));
        let colliders = resolve_name_list(
            world,
            rig.root,
            &rig.spring_nodes.0[d].colliders,
            Ghost(nodes0),
        );
        if joints.len() > 0 {
            let first = joints[0];
            proof {
                assert(seq_usize_ints(joints@)[0] == joints@[0] as int);
                assert(spec_def_first_joint(nodes0, root_g, defs[di]) == Some(first as int));
            }
            let chain = SpringRoot { center_node, joints, colliders };
            let nd = &mut world.nodes[first];
            nd.spring_root = Some(chain);
            attached.push(first);
            proof {
                assert(spec_def_attaches_to(nodes0, root_g, defs, di, first as int));
                assert forall|j: int| 0 <= j < nodes0.len() implies spec_spring_node_state(
                    nodes0,
                    root_g,
                    defs,
                    upto,
                    #[trigger] world.nodes@[j],
                    j,
                ) by {
                    if j == first as int {
                        assert(spec_def_winner(nodes0, root_g, defs, upto, j) == Some(di));
                    } else {
                        assert(!spec_def_attaches_to(nodes0, root_g, defs, di, j));
                        assert(spec_def_winner(nodes0, root_g, defs, upto, j) == spec_def_winner(
                            nodes0,
                            root_g,
                            defs,
                            di,
                            j,
                        ));
                    }
                }
                assert(seq_usize_ints(attached@) =~= spec_attached_roots(
                    nodes0,
                    root_g,
                    defs,
                    upto,
                ));
            }
        } else {
            proof {
                assert(spec_resolved_list(nodes0, root_g, defs[di].joints@).len() == 0);
                assert(spec_def_first_joint(nodes0, root_g, defs[di]) is None);
                assert forall|j: int| 0 <= j < nodes0.len() implies spec_spring_node_state(
                    nodes0,
                    root_g,
                    defs,
                    upto,
                    #[trigger] world.nodes@[j],
                    j,
                ) by {
                    assert(!spec_def_attaches_to(nodes0, root_g, defs, di, j));
                    assert(spec_def_winner(nodes0, root_g, defs, upto, j) == spec_def_winner(
                        nodes0,
                        root_g,
                        defs,
                        di,
                        j,
                    ));
                }
            }
        }
        d = d + 1;
    }
    rig.gates.attached_spring_roots = true;
    attached
}

/// The seeded state for a segment whose far joint sits at local transform `t`:
/// both tails start at the joint's translation, the axis is its direction,
/// the length its magnitude, and the initial transforms are captured verbatim.
pub open spec fn spec_joint_state_for(t: Transform) -> SpringJointState {
    SpringJointState {
        prev_tail: t.translation,
        current_tail: t.translation,
        bone_axis: spec_normalize(t.translation),
        bone_length: spec_norm(t.translation) as i64,
        initial_local_transform: t,
        initial_local_rotation: t.rotation,
    }
}

/// The node that carries the state of segment `p`: the chain root for the
/// first segment, and thereafter the joint preceding joint `p`.
pub open spec fn spec_carrier(chain_root: int, joints: Seq<usize>, p: int) -> int {
    if p == 0 {
        chain_root
    } else {
        joints[p - 1] as int
    }
}

/// The last segment among the first `upto` whose carrier is node `n`.
pub open spec fn spec_carrier_winner(
    chain_root: int,
    joints: Seq<usize>,
    upto: int,
    n: int,
) -> Option<int>
    decreases upto,
{
    if upto <= 0 {
        None
    } else if spec_carrier(chain_root, joints, upto - 1) == n {
        Some(upto - 1)
    } else {
        spec_carrier_winner(chain_root, joints, upto - 1, n)
    }
}

/// No winning segment means node `n` carries no segment.
pub proof fn lemma_carrier_winner_none(chain_root: int, joints: Seq<usize>, upto: int, n: int)
    ensures
        (spec_carrier_winner(chain_root, joints, upto, n) is None) == (forall|p: int|
            0 <= p < upto ==> spec_carrier(chain_root, joints, p) != n),
    decreases upto,
{
    if upto > 0 {
        lemma_carrier_winner_none(chain_root, joints, upto - 1, n);
    }
}

/// With pairwise-distinct carriers, segment `p`'s carrier holds exactly
/// segment `p`: the node preceding joint `p` receives the direction and length
/// of joint `p`'s local translation.
pub proof fn lemma_joint_states_aligned(chain_root: int, joints: Seq<usize>, p: int)
    requires
        0 <= p < joints.len(),
        forall|p1: int, p2: int|
            0 <= p1 < p2 < joints.len() ==> spec_carrier(chain_root, joints, p1) != spec_carrier(
                chain_root,
                joints,
                p2,
            ),
    ensures
        spec_carrier_winner(
            chain_root,
            joints,
            joints.len() as int,
            spec_carrier(chain_root, joints, p),
        ) == Some(p),
{
    lemma_carrier_winner_last(chain_root, joints, joints.len() as int, p);
}

pub proof fn lemma_carrier_winner_last(chain_root: int, joints: Seq<usize>, upto: int, p: int)
    requires
        0 <= p < upto <= joints.len(),
        forall|p2: int|
            p < p2 < upto ==> spec_carrier(chain_root, joints, p2) != spec_carrier(
                chain_root,
                joints,
                p,
            ),
    ensures
        spec_carrier_winner(chain_root, joints, upto, spec_carrier(chain_root, joints, p)) == Some(
            p,
        ),
    decreases upto,
{
    if upto - 1 > p {
        lemma_carrier_winner_last(chain_root, joints, upto - 1, p);
    }
}

/// Seeds the physics state of one freshly attached spring chain.
///
/// Starting with the chain root as carrier, each joint in order stores on the
/// current carrier the state of the segment toward it — its translation as
/// both tails, its direction and length, and its initial transforms — and then
/// becomes the carrier. The first joint is the chain root itself, so the root
/// stores a degenerate self-segment; the last joint carries no outgoing state.
pub fn init_spring_joint_states(world: &mut SceneWorld, chain_root: usize)
    requires
        old(world).wf(),
        chain_root < old(world).nodes@.len(),
        old(world).nodes@[chain_root as int].spring_root matches Some(sr) && forall|p: int|
            0 <= p < sr.joints@.len() ==> (#[trigger] sr.joints@[p]) < old(world).nodes@.len()
                && old(world).nodes@[sr.joints@[p] as int].transform.spec_in_range(),
    ensures
        final(world).wf(),
        final(world).nodes@.len() == old(world).nodes@.len(),
        old(world).nodes@[chain_root as int].spring_root matches Some(sr) ==> forall|n: int|
            0 <= n < old(world).nodes@.len() ==> #[trigger] final(world).nodes@[n] == (
            match spec_carrier_winner(
                chain_root as int,
                sr.joints@,
                sr.joints@.len() as int,
                n,
            ) {
                Some(p) => Node {
                    joint_state: Some(
                        spec_joint_state_for(
                            old(world).nodes@[sr.joints@[p] as int].transform,
                        ),
                    ),
                    ..old(world).nodes@[n]
                },
                None => old(world).nodes@[n],
            }),
{
    let ghost nodes0 = world.nodes@;
    let joints: Vec<usize> = {
        let mut tmp: Vec<usize> = Vec::new();
        match &world.nodes[chain_root].spring_root {
            Some(sr) => {
                let mut p: usize = 0;
                while p < sr.joints.len()
                    invariant
                        p <= sr.joints@.len(),
                        tmp@ == sr.joints@.subrange(0, p as int),
                    decreases sr.joints@.len() - p,
                {
                    tmp.push(sr.joints[p]);
                    assert(tmp@ =~= sr.joints@.subrange(0, p as int + 1));
                    p = p + 1;
                }
                assert(tmp@ =~= sr.joints@);
            },
            None => {
                proof {
                    assert(false);
                }
            },
        }
        tmp
    };
    let ghost joints0 = joints@;
    let mut carrier: usize = chain_root;
    let mut p: usize = 0;
    while p < joints.len()
        invariant
            world.wf(),
            world.nodes@.len() == nodes0.len(),
            chain_root < nodes0.len(),
            joints@ == joints0,
            forall|q: int|
                0 <= q < joints0.len() ==> (#[trigger] joints0[q]) < nodes0.len()
                    && nodes0[joints0[q] as int].transform.spec_in_range(),
            p <= joints0.len(),
            carrier as int == spec_carrier(chain_root as int, joints0, p as int),
            carrier < nodes0.len(),
            forall|n: int|
                0 <= n < nodes0.len() ==> #[trigger] world.nodes@[n] == (
                match spec_carrier_winner(chain_root as int, joints0, p as int, n) {
                    Some(q) => Node {
                        joint_state: Some(
                            spec_joint_state_for(nodes0[joints0[q] as int].transform),
                        ),
                        ..nodes0[n]
                    },
                    None => nodes0[n],
                }),
        decreases joints0.len() - p,
    {
        let j = joints[p];
        proof {
            assert(world.nodes@[j as int].transform == nodes0[j as int].transform);
        }
        let t = world.nodes[j].transform;
        let translation = t.translation;
        let axis = normalize_fixed(&translation);
        let length = norm_fixed(&translation);
        let state = SpringJointState {
            prev_tail: translation,
            current_tail: translation,
            bone_axis: axis,
            bone_length: length,
            initial_local_transform: t,
            initial_local_rotation: t.rotation,
        };
        proof {
            assert(state == spec_joint_state_for(nodes0[j as int].transform));
        }
        let nd = &mut world.nodes[carrier];
        nd.joint_state = Some(state);
        proof {
            let upto = p as int + 1;
            assert forall|n: int| 0 <= n < nodes0.len() implies #[trigger] world.nodes@[n] == (
            match spec_carrier_winner(chain_root as int, joints0, upto, n) {
                Some(q) => Node {
                    joint_state: Some(spec_joint_state_for(nodes0[joints0[q] as int].transform)),
                    ..nodes0[n]
                },
                None => nodes0[n],
            }) by {
                if n == carrier as int {
                    assert(spec_carrier_winner(chain_root as int, joints0, upto, n) == Some(
                        p as int,
                    ));
                } else {
                    assert(spec_carrier(chain_root as int, joints0, p as int) != n);
                    assert(spec_carrier_winner(chain_root as int, joints0, upto, n)
                        == spec_carrier_winner(chain_root as int, joints0, p as int, n));
                }
            }
        }
        carrier = j;
        p = p + 1;
    }
}

} // verus!
