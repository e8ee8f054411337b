//! The bone registry: the per-rig map from semantic bone identifier to node
//! name, built from the asset's parsed humanoid bone table; and the humanoid
//! attachment pass that resolves each entry to a live node, captures its rest
//! pose and designates the hips.

use vstd::prelude::*;
use crate::vrm::{
    spec_hips_name, spec_placeholder_root_name, hips_name, placeholder_root_name, AttachmentGates,
    BoneRestGlobalTransform, BoneRestTransform, Rig, VrmBone, VrmHipsBoneTo,
};
use crate::vrm::extensions::VrmNode;
use crate::world::{
    lemma_resolve_props, lemma_resolve_same_shape, spec_resolve, Node, SceneWorld,
};

verus! {

/// What `HumanoidBoneRegistry::new` builds, as (identifier, node name) views:
/// entry `(name, node)` becomes `(name, node_names[node.node])`, in input
/// order, and entries whose node index is out of range are dropped.
pub open spec fn spec_built_entries(
    bones: Seq<(String, VrmNode)>,
    node_names: Seq<String>,
) -> Seq<(Seq<char>, Seq<char>)>
    decreases bones.len(),
{
    if bones.len() == 0 {
        Seq::empty()
    } else {
        let rest = spec_built_entries(bones.drop_last(), node_names);
        let last = bones.last();
        if last.1.node < node_names.len() {
            rest.push((last.0@, node_names[last.1.node as int]@))
        } else {
            rest
        }
    }
}

/// Per-rig mapping from semantic bone identifier to the node name that stands
/// for it in that rig's hierarchy. Keys are unique; the map may be partial.
#[derive(Debug, PartialEq, Eq)]
pub struct HumanoidBoneRegistry(pub Vec<(VrmBone, String)>);

impl Clone for HumanoidBoneRegistry {
    fn clone(&self) -> (r: Self)
        ensures
            r.0@ == self.0@,
    {
        let mut out: Vec<(VrmBone, String)> = Vec::new();
        let mut k: usize = 0;
        while k < self.0.len()
            invariant
                k <= self.0@.len(),
                out@ == self.0@.subrange(0, k as int),
            decreases self.0@.len() - k,
        {
            let entry = (self.0[k].0.clone(), self.0[k].1.clone());
            assert(entry == self.0@[k as int]);
            out.push(entry);
            assert(out@ =~= self.0@.subrange(0, k as int + 1));
            k = k + 1;
        }
        assert(out@ =~= self.0@);
        HumanoidBoneRegistry(out)
    }
}

impl Default for HumanoidBoneRegistry {
    /// An empty registry.
    fn default() -> (r: Self)
        ensures
            r.0@.len() == 0,
    {
        HumanoidBoneRegistry(Vec::new())
    }
}

impl HumanoidBoneRegistry {
    /// Identifiers are pairwise distinct.
    pub open spec fn wf(self) -> bool {
        forall|k1: int, k2: int|
            0 <= k1 < k2 < self.0@.len() ==> (#[trigger] self.0@[k1]).0@ != (
            #[trigger] self.0@[k2]).0@
    }

    /// Builds the registry from the parsed humanoid bone table and the
    /// asset's node names, exactly as [`spec_built_entries`] describes.
    pub fn new(bones: &Vec<(String, VrmNode)>, node_names: &Vec<String>) -> (r: Self)
        ensures
            r.0@.len() == spec_built_entries(bones@, node_names@).len(),
            forall|j: int|
                0 <= j < r.0@.len() ==> (#[trigger] r.0@[j]).0@ == spec_built_entries(
                    bones@,
                    node_names@,
                )[j].0 && r.0@[j].1@ == spec_built_entries(bones@, node_names@)[j].1,
    {
        let mut out: Vec<(VrmBone, String)> = Vec::new();
        let mut k: usize = 0;
        while k < bones.len()
            invariant
                k <= bones@.len(),
                out@.len() == spec_built_entries(bones@.subrange(0, k as int), node_names@).len(),
                forall|j: int|
                    0 <= j < out@.len() ==> (#[trigger] out@[j]).0@ == spec_built_entries(
                        bones@.subrange(0, k as int),
                        node_names@,
                    )[j].0 && out@[j].1@ == spec_built_entries(
                        bones@.subrange(0, k as int),
                        node_names@,
                    )[j].1,
            decreases bones@.len() - k,
        {
            proof {
                assert(bones@.subrange(0, k as int + 1).drop_last() =~= bones@.subrange(
                    0,
                    k as int,
                ));
                assert(bones@.subrange(0, k as int + 1).last() == bones@[k as int]);
            }
            let idx = bones[k].1.node;
            if idx < node_names.len() {
                let bone = VrmBone(bones[k].0.clone());
                let name = node_names[idx].clone();
                out.push((bone, name));
            }
            k = k + 1;
        }
        proof {
            assert(bones@.subrange(0, bones@.len() as int) =~= bones@);
        }
        HumanoidBoneRegistry(out)
    }
}

/// Distinct identifiers in the bone table give a well-formed registry: every
/// built key is one of the table's keys, at its own position, so the built
/// keys stay pairwise distinct.
pub proof fn lemma_built_entries_keys(bones: Seq<(String, VrmNode)>, node_names: Seq<String>)
    requires
        forall|k1: int, k2: int|
            0 <= k1 < k2 < bones.len() ==> (#[trigger] bones[k1]).0@ != (#[trigger] bones[k2]).0@,
    ensures
        forall|j1: int, j2: int|
            0 <= j1 < j2 < spec_built_entries(bones, node_names).len()
                ==> (#[trigger] spec_built_entries(bones, node_names)[j1]).0 != (
            #[trigger] spec_built_entries(bones, node_names)[j2]).0,
    decreases bones.len(),
{
    if bones.len() > 0 {
        lemma_built_entries_key_origin(bones.drop_last(), node_names);
        lemma_built_entries_keys(bones.drop_last(), node_names);
        assert(forall|k: int|
            0 <= k < bones.drop_last().len() ==> (#[trigger] bones.drop_last()[k]).0@ == bones[k].0@);
        let built = spec_built_entries(bones, node_names);
        let rest = spec_built_entries(bones.drop_last(), node_names);
        assert forall|j1: int, j2: int| 0 <= j1 < j2 < built.len() implies (#[trigger] built[j1]).0
            != (#[trigger] built[j2]).0 by {
            if j2 < rest.len() {
                assert(built[j1].0 == rest[j1].0 && built[j2].0 == rest[j2].0);
            } else {
                assert(built[j2].0 == bones[bones.len() - 1].0@);
                assert(built[j1].0 == rest[j1].0);
                let k0 = choose|k0: int|
                    0 <= k0 < bones.drop_last().len() && (#[trigger] rest[j1]).0
                        == bones.drop_last()[k0].0@;
                assert(bones.drop_last()[k0].0@ == bones[k0].0@);
                assert(bones[k0].0@ != bones[bones.len() - 1].0@);
            }
        }
    }
}

/// Every key of the built entries is the key of some table entry.
pub proof fn lemma_built_entries_key_origin(bones: Seq<(String, VrmNode)>, node_names: Seq<String>)
    ensures
        forall|j: int|
            0 <= j < spec_built_entries(bones, node_names).len() ==> exists|k: int|
                0 <= k < bones.len() && (#[trigger] spec_built_entries(bones, node_names)[j]).0 == (
                #[trigger] bones[k]).0@,
    decreases bones.len(),
{
    if bones.len() > 0 {
        lemma_built_entries_key_origin(bones.drop_last(), node_names);
        let built = spec_built_entries(bones, node_names);
        let rest = spec_built_entries(bones.drop_last(), node_names);
        assert forall|j: int| 0 <= j < built.len() implies exists|k: int|
            0 <= k < bones.len() && (#[trigger] built[j]).0 == (#[trigger] bones[k]).0@ by {
            if j < rest.len() {
                let k0 = choose|k0: int|
                    0 <= k0 < bones.drop_last().len() && (#[trigger] rest[j]).0
                        == bones.drop_last()[k0].0@;
                assert(bones.drop_last()[k0] == bones[k0]);
                assert(built[j].0 == bones[k0].0@);
            } else {
                assert(built[j].0 == bones[bones.len() - 1].0@);
            }
        }
    }
}

// The humanoid attachment pass and its specification. Resolution always reads
// the pass's initial scene (`nodes0`): the pass writes only bone tags and rest
// snapshots, which name resolution does not depend on.
/// Registry entry `k` resolves to node `i` (against the initial scene).
pub open spec fn spec_entry_resolves_to(
    nodes0: Seq<Node>,
    root: int,
    reg: Seq<(VrmBone, String)>,
    k: int,
    i: int,
) -> bool {
    0 <= k < reg.len() && spec_resolve(nodes0, root, reg[k].1@) == Some(i)
}

/// The last entry among the first `upto` that resolves to node `i`: the one
/// whose identifier the node ends up tagged with.
pub open spec fn spec_winner_entry(
    nodes0: Seq<Node>,
    root: int,
    reg: Seq<(VrmBone, String)>,
    upto: int,
    i: int,
) -> Option<int>
    decreases upto,
{
    if upto <= 0 {
        None
    } else if spec_entry_resolves_to(nodes0, root, reg, upto - 1, i) {
        Some(upto - 1)
    } else {
        spec_winner_entry(nodes0, root, reg, upto - 1, i)
    }
}

/// No winner means no entry resolves to the node.
pub proof fn lemma_winner_none(
    nodes0: Seq<Node>,
    root: int,
    reg: Seq<(VrmBone, String)>,
    upto: int,
    i: int,
)
    ensures
        (spec_winner_entry(nodes0, root, reg, upto, i) is None) == (forall|k: int|
            0 <= k < upto ==> !spec_entry_resolves_to(nodes0, root, reg, k, i)),
    decreases upto,
{
    if upto > 0 {
        lemma_winner_none(nodes0, root, reg, upto - 1, i);
    }
}

/// Whether some entry among the first `upto` is the hips identifier and
/// resolves to node `i`.
pub open spec fn spec_hips_resolved_to(
    nodes0: Seq<Node>,
    root: int,
    reg: Seq<(VrmBone, String)>,
    upto: int,
    i: int,
) -> bool {
    exists|k: int|
        0 <= k < upto && #[trigger] spec_entry_resolves_to(nodes0, root, reg, k, i) && reg[k].0@
            == spec_hips_name()
}

/// Extending the processed prefix by one entry extends the hips mark by
/// exactly that entry's contribution.
pub proof fn lemma_hips_resolved_extend(
    nodes0: Seq<Node>,
    root: int,
    reg: Seq<(VrmBone, String)>,
    k: int,
    j: int,
)
    requires
        0 <= k,
    ensures
        spec_hips_resolved_to(nodes0, root, reg, k + 1, j) == (spec_hips_resolved_to(
            nodes0,
            root,
            reg,
            k,
            j,
        ) || (spec_entry_resolves_to(nodes0, root, reg, k, j) && reg[k].0@ == spec_hips_name())),
{
    if spec_hips_resolved_to(nodes0, root, reg, k + 1, j) {
        let w = choose|w: int|
            0 <= w < k + 1 && #[trigger] spec_entry_resolves_to(nodes0, root, reg, w, j) && reg[
                w
            ].0@ == spec_hips_name();
        if w < k {
            assert(spec_hips_resolved_to(nodes0, root, reg, k, j));
        }
    }
    if spec_hips_resolved_to(nodes0, root, reg, k, j) {
        let w = choose|w: int|
            0 <= w < k && #[trigger] spec_entry_resolves_to(nodes0, root, reg, w, j) && reg[w].0@
                == spec_hips_name();
        assert(spec_entry_resolves_to(nodes0, root, reg, w, j));
        assert(spec_hips_resolved_to(nodes0, root, reg, k + 1, j));
    }
    if spec_entry_resolves_to(nodes0, root, reg, k, j) && reg[k].0@ == spec_hips_name() {
        assert(spec_hips_resolved_to(nodes0, root, reg, k + 1, j));
    }
}

/// The node the last resolving hips entry among the first `upto` resolves to.
pub open spec fn spec_hips_target(
    nodes0: Seq<Node>,
    root: int,
    reg: Seq<(VrmBone, String)>,
    upto: int,
) -> Option<int>
    decreases upto,
{
    if upto <= 0 {
        None
    } else if reg[upto - 1].0@ == spec_hips_name() && spec_resolve(
        nodes0,
        root,
        reg[upto - 1].1@,
    ) is Some {
        spec_resolve(nodes0, root, reg[upto - 1].1@)
    } else {
        spec_hips_target(nodes0, root, reg, upto - 1)
    }
}

/// Node `i` after the first `upto` registry entries have been processed: if
/// any entry resolved to it, it carries the last such entry's identifier, the
/// rest snapshots of its own transforms, and the hips mark if a hips entry
/// resolved to it; otherwise it is untouched.
pub open spec fn spec_node_after_attach(
    nodes0: Seq<Node>,
    root: int,
    reg: Seq<(VrmBone, String)>,
    upto: int,
    i: int,
) -> Node {
    let nd = nodes0[i];
    match spec_winner_entry(nodes0, root, reg, upto, i) {
        Some(w) => Node {
            bone: Some(reg[w].0),
            rest_transform: Some(BoneRestTransform(nd.transform)),
            rest_global_transform: Some(BoneRestGlobalTransform(nd.global_transform)),
            hips: nd.hips || spec_hips_resolved_to(nodes0, root, reg, upto, i),
            ..nd
        },
        None => nd,
    }
}

/// Whether the humanoid attachment pass runs on this rig: its flag is unset
/// and the placeholder root node ("Root") resolves under the rig root, the
/// sign that the rig's hierarchy has spawned.
pub open spec fn spec_attach_bones_ready(nodes0: Seq<Node>, rig: Rig) -> bool {
    !rig.gates.humanoid_bones_attached && spec_resolve(
        nodes0,
        rig.root as int,
        spec_placeholder_root_name(),
    ) is Some
}

/// Tags node `i` with its resolved identifier, captures the rest snapshots of
/// its current transforms, and adds the hips mark when asked.
fn tag_bone_node(world: &mut SceneWorld, i: usize, bone: VrmBone, is_hips: bool)
    requires
        old(world).wf(),
        i < old(world).nodes@.len(),
    ensures
        final(world).wf(),
        final(world).nodes@.len() == old(world).nodes@.len(),
        forall|j: int|
            0 <= j < old(world).nodes@.len() && j != i ==> final(world).nodes@[j] == old(
                world,
            ).nodes@[j],
        final(world).nodes@[i as int] == (Node {
            bone: Some(bone),
            rest_transform: Some(BoneRestTransform(old(world).nodes@[i as int].transform)),
            rest_global_transform: Some(
                BoneRestGlobalTransform(old(world).nodes@[i as int].global_transform),
            ),
            hips: old(world).nodes@[i as int].hips || is_hips,
            ..old(world).nodes@[i as int]
        }),
{
    let rest = BoneRestTransform(world.nodes[i].transform);
    let rest_global = BoneRestGlobalTransform(world.nodes[i].global_transform);
    let hips_mark = world.nodes[i].hips || is_hips;
    let nd = &mut world.nodes[i];
    nd.bone = Some(bone);
    nd.rest_transform = Some(rest);
    nd.rest_global_transform = Some(rest_global);
    nd.hips = hips_mark;
}

/// The humanoid attachment pass for one rig.
///
/// If the rig's flag is already set, or no placeholder root node named "Root"
/// resolves under the rig root yet, nothing happens (the rig is revisited on
/// a later pass). Otherwise
/// every registry entry whose node name resolves under the rig root is tagged
/// with its identifier and its rest pose is captured; unresolved entries are
/// skipped. A resolved hips entry additionally marks its node and records the
/// back-reference on the rig. Afterwards the rig's flag is set
/// unconditionally, even if nothing resolved, so the rig is never
/// reprocessed.
pub fn attach_bones(world: &mut SceneWorld, rig: &mut Rig)
    requires
        old(world).wf(),
        old(rig).root < old(world).nodes@.len(),
    ensures
        final(world).wf(),
        final(world).nodes@.len() == old(world).nodes@.len(),
        !spec_attach_bones_ready(old(world).nodes@, *old(rig)) ==> {
            &&& final(world).nodes@ == old(world).nodes@
            &&& *final(rig) == *old(rig)
        },
        spec_attach_bones_ready(old(world).nodes@, *old(rig)) ==> {
            let nodes0 = old(world).nodes@;
            let root = old(rig).root as int;
            let reg = old(rig).bones.0@;
            &&& forall|i: int|
                0 <= i < nodes0.len() ==> final(world).nodes@[i] == spec_node_after_attach(
                    nodes0,
                    root,
                    reg,
                    reg.len() as int,
                    i,
                )
            &&& final(rig).gates == (AttachmentGates {
                humanoid_bones_attached: true,
                ..old(rig).gates
            })
            &&& match spec_hips_target(nodes0, root, reg, reg.len() as int) {
                Some(i) => final(rig).hips_bone_to matches Some(h) && h.0 == i,
                None => final(rig).hips_bone_to == old(rig).hips_bone_to,
            }
            &&& final(rig).root == old(rig).root
            &&& final(rig).bones == old(rig).bones
            &&& final(rig).joint_props == old(rig).joint_props
            &&& final(rig).collider_shapes == old(rig).collider_shapes
            &&& final(rig).spring_nodes == old(rig).spring_nodes
            &&& final(rig).retarget_to == old(rig).retarget_to
        },
{
    if rig.gates.humanoid_bones_attached {
        return;
    }
    let placeholder = placeholder_root_name();
    if world.find_from_name(rig.root, &placeholder).is_none() {
        return;
    }
    let ghost nodes0 = world.nodes@;
    let ghost root_g = rig.root as int;
    let ghost reg = rig.bones.0@;
    let hips_key = hips_name();
    let n = rig.bones.0.len();
    let mut hips_found: Option<usize> = None;
    let mut k: usize = 0;
    while k < n
        invariant
            world.wf(),
            world.nodes@.len() == nodes0.len(),
            rig.root < nodes0.len(),
            root_g == rig.root as int,
            reg == rig.bones.0@,
            n == reg.len(),
            k <= n,
            hips_key@ == spec_hips_name(),
            *rig == *old(rig),
            forall|i: int|
                0 <= i < nodes0.len() ==> world.nodes@[i] == spec_node_after_attach(
                    nodes0,
                    root_g,
                    reg,
                    k as int,
                    i,
                ),
            match hips_found {
                Some(u) => u < nodes0.len() && spec_hips_target(nodes0, root_g, reg, k as int)
                    == Some(u as int),
                None => spec_hips_target(nodes0, root_g, reg, k as int) is None,
            },
        decreases n - k,
    {
        proof {
            assert forall|i: int| 0 <= i < nodes0.len() implies (#[trigger] world.nodes@[i]).name@
                == nodes0[i].name@ && world.nodes@[i].parent == nodes0[i].parent by {
                assert(world.nodes@[i] == spec_node_after_attach(nodes0, root_g, reg, k as int, i));
            }
            lemma_resolve_same_shape(world.nodes@, nodes0, root_g, rig.bones.0@[k as int].1@);
        }
        let found = world.find_from_name(rig.root, &rig.bones.0[k].1);
        let ghost ki = k as int;
        let ghost upto = k as int + 1;
        match found {
            Some(i) => {
                let bone = rig.bones.0[k].0.clone();
                let is_hips = bone.0 == hips_key;
                proof {
                    assert(spec_entry_resolves_to(nodes0, root_g, reg, ki, i as int));
                    assert(is_hips == (reg[ki].0@ == spec_hips_name()));
                }
                tag_bone_node(world, i, bone, is_hips);
                if is_hips {
                    hips_found = Some(i);
                }
                proof {
                    assert forall|j: int| 0 <= j < nodes0.len() implies world.nodes@[j]
                        == spec_node_after_attach(nodes0, root_g, reg, upto, j) by {
                        lemma_hips_resolved_extend(nodes0, root_g, reg, ki, j);
                        let prev = spec_node_after_attach(nodes0, root_g, reg, ki, j);
                        if j == i as int {
                            assert(spec_winner_entry(nodes0, root_g, reg, upto, j) == Some(ki));
                            match spec_winner_entry(nodes0, root_g, reg, ki, j) {
                                Some(w) => {
                                    assert(prev.hips == (nodes0[j].hips || spec_hips_resolved_to(
                                        nodes0,
                                        root_g,
                                        reg,
                                        ki,
                                        j,
                                    )));
                                },
                                None => {
                                    lemma_winner_none(nodes0, root_g, reg, ki, j);
                                    if spec_hips_resolved_to(nodes0, root_g, reg, ki, j) {
                                        let w = choose|w: int|
                                            0 <= w < ki && #[trigger] spec_entry_resolves_to(
                                                nodes0,
                                                root_g,
                                                reg,
                                                w,
                                                j,
                                            ) && reg[w].0@ == spec_hips_name();
                                        assert(false);
                                    }
                                    assert(prev.hips == nodes0[j].hips);
                                },
                            }
                            assert(prev.transform == nodes0[j].transform);
                            assert(prev.global_transform == nodes0[j].global_transform);
                        } else {
                            assert(!spec_entry_resolves_to(nodes0, root_g, reg, ki, j));
                            assert(spec_winner_entry(nodes0, root_g, reg, upto, j)
                                == spec_winner_entry(nodes0, root_g, reg, ki, j));
                            assert(world.nodes@[j] == prev);
                        }
                    }
                }
            },
            None => {
                proof {
                    assert forall|j: int| 0 <= j < nodes0.len() implies world.nodes@[j]
                        == spec_node_after_attach(nodes0, root_g, reg, upto, j) by {
                        lemma_hips_resolved_extend(nodes0, root_g, reg, ki, j);
                        assert(!spec_entry_resolves_to(nodes0, root_g, reg, ki, j));
                        assert(spec_winner_entry(nodes0, root_g, reg, upto, j) == spec_winner_entry(
                            nodes0,
                            root_g,
                            reg,
                            ki,
                            j,
                        ));
                    }
                }
            },
        }
        k = k + 1;
    }
    rig.gates.humanoid_bones_attached = true;
    match hips_found {
        Some(i) => {
            rig.hips_bone_to = Some(VrmHipsBoneTo(i));
        },
        None => {},
    }
}

/// The winner is the last resolving entry: if entry `k` resolves to node `i`
/// and no later entry does, `k` wins.
pub proof fn lemma_winner_last(
    nodes0: Seq<Node>,
    root: int,
    reg: Seq<(VrmBone, String)>,
    upto: int,
    k: int,
    i: int,
)
    requires
        0 <= k < upto,
        spec_entry_resolves_to(nodes0, root, reg, k, i),
        forall|k2: int| k < k2 < upto ==> !spec_entry_resolves_to(nodes0, root, reg, k2, i),
    ensures
        spec_winner_entry(nodes0, root, reg, upto, i) == Some(k),
    decreases upto,
{
    if upto - 1 > k {
        lemma_winner_last(nodes0, root, reg, upto - 1, k, i);
    }
}

/// Attaching a rig tags every resolvable registry entry: if entry `k`'s node
/// name resolves to node `i` and no later entry carries that name, then after
/// the pass node `i` bears entry `k`'s identifier and the rest snapshots of
/// the transforms it had when the pass ran.
pub proof fn lemma_attach_bones_tags_resolved(
    nodes0: Seq<Node>,
    root: int,
    reg: Seq<(VrmBone, String)>,
    k: int,
    i: int,
)
    requires
        0 <= k < reg.len(),
        spec_resolve(nodes0, root, reg[k].1@) == Some(i),
        forall|k2: int| k < k2 < reg.len() ==> (#[trigger] reg[k2]).1@ != reg[k].1@,
    ensures
        0 <= i < nodes0.len(),
        spec_node_after_attach(nodes0, root, reg, reg.len() as int, i) == (Node {
            bone: Some(reg[k].0),
            rest_transform: Some(BoneRestTransform(nodes0[i].transform)),
            rest_global_transform: Some(BoneRestGlobalTransform(nodes0[i].global_transform)),
            hips: nodes0[i].hips || spec_hips_resolved_to(nodes0, root, reg, reg.len() as int, i),
            ..nodes0[i]
        }),
{
    lemma_resolve_props(nodes0, root, reg[k].1@);
    assert forall|k2: int| k < k2 < reg.len() implies !spec_entry_resolves_to(
        nodes0,
        root,
        reg,
        k2,
        i,
    ) by {
        if spec_entry_resolves_to(nodes0, root, reg, k2, i) {
            lemma_resolve_props(nodes0, root, reg[k2].1@);
            assert(nodes0[i].name@ == reg[k2].1@);
            assert(nodes0[i].name@ == reg[k].1@);
        }
    }
    lemma_winner_last(nodes0, root, reg, reg.len() as int, k, i);
}

/// Attaching a rig touches nothing outside the resolved entries: a node that
/// no registry entry resolves to comes out of the pass exactly as it went in.
pub proof fn lemma_attach_bones_untouched(
    nodes0: Seq<Node>,
    root: int,
    reg: Seq<(VrmBone, String)>,
    i: int,
)
    requires
        forall|k: int|
            0 <= k < reg.len() ==> spec_resolve(nodes0, root, (#[trigger] reg[k]).1@) != Some(i),
    ensures
        spec_node_after_attach(nodes0, root, reg, reg.len() as int, i) == nodes0[i],
{
    lemma_winner_none(nodes0, root, reg, reg.len() as int, i);
    assert(forall|k: int| 0 <= k < reg.len() ==> !spec_entry_resolves_to(nodes0, root, reg, k, i));
}

/// The same, by name: a node whose name no registry entry carries is
/// untouched, whatever its place in the hierarchy.
pub proof fn lemma_attach_bones_untouched_by_name(
    nodes0: Seq<Node>,
    root: int,
    reg: Seq<(VrmBone, String)>,
    i: int,
)
    requires
        0 <= i < nodes0.len(),
        forall|k: int| 0 <= k < reg.len() ==> (#[trigger] reg[k]).1@ != nodes0[i].name@,
    ensures
        spec_node_after_attach(nodes0, root, reg, reg.len() as int, i) == nodes0[i],
{
    assert forall|k: int| 0 <= k < reg.len() implies spec_resolve(
        nodes0,
        root,
        (#[trigger] reg[k]).1@,
    ) != Some(i) by {
        lemma_resolve_props(nodes0, root, reg[k].1@);
    }
    lemma_attach_bones_untouched(nodes0, root, reg, i);
}

} // verus!
