//! The scene model: a tree of named nodes, each carrying a local and a world
//! transform and the attributes the attachment passes write. Node indices play
//! the role of entity identifiers; a node's parent always has a smaller index,
//! so parent chains terminate.

use vstd::prelude::*;
use crate::math::Transform;
use crate::vrm::{BoneRestGlobalTransform, BoneRestTransform, VrmBone};
use crate::vrm::humanoid_bone::HumanoidBoneRegistry;
use crate::vrm::spring_bone::{ColliderShape, SpringJointProps, SpringJointState, SpringRoot};
use crate::vrma::animation::{AnimationPlayer, VrmAnimationGraph};

verus! {

/// One scene node and everything attached to it.
pub struct Node {
    /// The node's name, as spawned by the scene graph.
    pub name: String,
    /// The parent node; always a smaller index.
    pub parent: Option<usize>,
    /// The current local transform.
    pub transform: Transform,
    /// The current world transform, maintained by the external scene graph.
    pub global_transform: Transform,
    /// Whether the local transform changed since the last pose-binding pass.
    pub transform_changed: bool,
    /// Marker: this node is the root of a model rig.
    pub vrm: bool,
    /// Marker: this node is the root of an animation rig.
    pub vrma: bool,
    /// The semantic bone identifier resolved onto this node.
    pub bone: Option<VrmBone>,
    /// Whether this node is a rig's hips bone.
    pub hips: bool,
    /// The local rest pose captured at attachment time.
    pub rest_transform: Option<BoneRestTransform>,
    /// The world rest pose captured at attachment time.
    pub rest_global_transform: Option<BoneRestGlobalTransform>,
    /// Spring joint properties attached to this node.
    pub joint_props: Option<SpringJointProps>,
    /// A collider shape attached to this node.
    pub collider_shape: Option<ColliderShape>,
    /// The spring chain whose identity this node is.
    pub spring_root: Option<SpringRoot>,
    /// The seeded state of the segment leaving this node.
    pub joint_state: Option<SpringJointState>,
    /// Whether this node is the source side of a retarget link.
    pub retarget_source: bool,
    /// The target node of this node's retarget link.
    pub retarget_bone_to: Option<usize>,
    /// Whether playback is currently driving this node, as toggled by the
    /// playback controller.
    pub current_retargeting: bool,
    /// An animation player living on this node.
    pub animation_player: Option<AnimationPlayer>,
    /// An animation graph living on this node (an animation rig root).
    pub animation_graph: Option<VrmAnimationGraph>,
    /// For an animation rig root: the node holding its player.
    pub animation_player_entity_to: Option<usize>,
    /// The graph handle bound onto a player node.
    pub graph_handle: Option<usize>,
}

impl Node {
    /// A fresh node with nothing attached.
    pub fn new(
        name: String,
        parent: Option<usize>,
        transform: Transform,
        global_transform: Transform,
    ) -> (r: Node)
        ensures
            r.name == name,
            r.parent == parent,
            r.transform == transform,
            r.global_transform == global_transform,
            !r.transform_changed,
            !r.vrm,
            !r.vrma,
            r.bone is None,
            !r.hips,
            r.rest_transform is None,
            r.rest_global_transform is None,
            r.joint_props is None,
            r.collider_shape is None,
            r.spring_root is None,
            r.joint_state is None,
            !r.retarget_source,
            r.retarget_bone_to is None,
            !r.current_retargeting,
            r.animation_player is None,
            r.animation_graph is None,
            r.animation_player_entity_to is None,
            r.graph_handle is None,
    {
        Node {
            name,
            parent,
            transform,
            global_transform,
            transform_changed: false,
            vrm: false,
            vrma: false,
            bone: None,
            hips: false,
            rest_transform: None,
            rest_global_transform: None,
            joint_props: None,
            collider_shape: None,
            spring_root: None,
            joint_state: None,
            retarget_source: false,
            retarget_bone_to: None,
            current_retargeting: false,
            animation_player: None,
            animation_graph: None,
            animation_player_entity_to: None,
            graph_handle: None,
        }
    }
}

/// Whether node `i` lies in the subtree rooted at `root` (the root included),
/// following parent links upward.
pub open spec fn spec_in_subtree(nodes: Seq<Node>, root: int, i: int) -> bool
    decreases i,
{
    if i == root {
        true
    } else if 0 <= i < nodes.len() {
        match nodes[i].parent {
            Some(p) => p < i && spec_in_subtree(nodes, root, p as int),
            None => false,
        }
    } else {
        false
    }
}

/// Whether node `i` matches `name` within the subtree of `root`.
pub open spec fn spec_name_matches_at(nodes: Seq<Node>, root: int, name: Seq<char>, i: int) -> bool {
    0 <= i < nodes.len() && spec_in_subtree(nodes, root, i) && nodes[i].name@ == name
}

/// Name resolution, scanning upward from index `k`: the least index at or
/// after `k` that matches, if any.
pub open spec fn spec_resolve_from(nodes: Seq<Node>, root: int, name: Seq<char>, k: int) -> Option<
    int,
>
    decreases nodes.len() - k,
{
    if k < 0 || k >= nodes.len() {
        None
    } else if spec_name_matches_at(nodes, root, name, k) {
        Some(k)
    } else {
        spec_resolve_from(nodes, root, name, k + 1)
    }
}

/// Name resolution: the least index in the subtree of `root` whose node is
/// named `name`, if any.
pub open spec fn spec_resolve(nodes: Seq<Node>, root: int, name: Seq<char>) -> Option<int> {
    spec_resolve_from(nodes, root, name, 0)
}

/// The bone identifier carried by a node, as a character sequence.
pub open spec fn spec_bone_view(nd: Node) -> Option<Seq<char>> {
    match nd.bone {
        Some(b) => Some(b@),
        None => None,
    }
}

/// Whether node `i` carries bone identifier `bone` within the subtree of
/// `root`.
pub open spec fn spec_bone_matches_at(nodes: Seq<Node>, root: int, bone: Seq<char>, i: int) -> bool {
    0 <= i < nodes.len() && spec_in_subtree(nodes, root, i) && spec_bone_view(nodes[i]) == Some(bone)
}

/// Bone resolution, scanning upward from index `k`.
pub open spec fn spec_resolve_bone_from(
    nodes: Seq<Node>,
    root: int,
    bone: Seq<char>,
    k: int,
) -> Option<int>
    decreases nodes.len() - k,
{
    if k < 0 || k >= nodes.len() {
        None
    } else if spec_bone_matches_at(nodes, root, bone, k) {
        Some(k)
    } else {
        spec_resolve_bone_from(nodes, root, bone, k + 1)
    }
}

/// Bone resolution: the least index in the subtree of `root` whose node is
/// tagged with `bone`, if any.
pub open spec fn spec_resolve_bone(nodes: Seq<Node>, root: int, bone: Seq<char>) -> Option<int> {
    spec_resolve_bone_from(nodes, root, bone, 0)
}

/// The tree shape two node sequences must share for name resolution to agree:
/// same length, names and parent links.
pub open spec fn same_tree_shape(a: Seq<Node>, b: Seq<Node>) -> bool {
    &&& a.len() == b.len()
    &&& forall|i: int|
        0 <= i < a.len() ==> (#[trigger] a[i]).name@ == b[i].name@ && a[i].parent == b[i].parent
}

/// Additionally equal bone tags, for bone resolution to agree.
pub open spec fn same_bone_shape(a: Seq<Node>, b: Seq<Node>) -> bool {
    &&& same_tree_shape(a, b)
    &&& forall|i: int| 0 <= i < a.len() ==> spec_bone_view(#[trigger] a[i]) == spec_bone_view(b[i])
}

pub proof fn lemma_in_subtree_same_shape(a: Seq<Node>, b: Seq<Node>, root: int, i: int)
    requires
        same_tree_shape(a, b),
    ensures
        spec_in_subtree(a, root, i) == spec_in_subtree(b, root, i),
    decreases i,
{
    if i != root && 0 <= i < a.len() {
        match a[i].parent {
            Some(p) => {
                if p < i {
                    lemma_in_subtree_same_shape(a, b, root, p as int);
                }
            },
            None => {},
        }
    }
}

pub proof fn lemma_resolve_from_same_shape(
    a: Seq<Node>,
    b: Seq<Node>,
    root: int,
    name: Seq<char>,
    k: int,
)
    requires
        same_tree_shape(a, b),
    ensures
        spec_resolve_from(a, root, name, k) == spec_resolve_from(b, root, name, k),
    decreases a.len() - k,
{
    if 0 <= k < a.len() {
        lemma_in_subtree_same_shape(a, b, root, k);
        lemma_resolve_from_same_shape(a, b, root, name, k + 1);
    }
}

/// Name resolution depends only on the tree shape.
pub proof fn lemma_resolve_same_shape(a: Seq<Node>, b: Seq<Node>, root: int, name: Seq<char>)
    requires
        same_tree_shape(a, b),
    ensures
        spec_resolve(a, root, name) == spec_resolve(b, root, name),
{
    lemma_resolve_from_same_shape(a, b, root, name, 0);
}

pub proof fn lemma_resolve_bone_from_same_shape(
    a: Seq<Node>,
    b: Seq<Node>,
    root: int,
    bone: Seq<char>,
    k: int,
)
    requires
        same_bone_shape(a, b),
    ensures
        spec_resolve_bone_from(a, root, bone, k) == spec_resolve_bone_from(b, root, bone, k),
    decreases a.len() - k,
{
    if 0 <= k < a.len() {
        lemma_in_subtree_same_shape(a, b, root, k);
        lemma_resolve_bone_from_same_shape(a, b, root, bone, k + 1);
    }
}

/// Bone resolution depends only on the tree shape and the bone tags.
pub proof fn lemma_resolve_bone_same_shape(a: Seq<Node>, b: Seq<Node>, root: int, bone: Seq<char>)
    requires
        same_bone_shape(a, b),
    ensures
        spec_resolve_bone(a, root, bone) == spec_resolve_bone(b, root, bone),
{
    lemma_resolve_bone_from_same_shape(a, b, root, bone, 0);
}

/// What name resolution promises: a hit is the least matching index; a miss
/// means nothing at or after `k` matches.
pub proof fn lemma_resolve_from_props(nodes: Seq<Node>, root: int, name: Seq<char>, k: int)
    requires
        0 <= k,
    ensures
        match spec_resolve_from(nodes, root, name, k) {
            Some(i) => k <= i < nodes.len() && spec_name_matches_at(nodes, root, name, i)
                && forall|j: int| k <= j < i ==> !spec_name_matches_at(nodes, root, name, j),
            None => forall|j: int|
                k <= j < nodes.len() ==> !spec_name_matches_at(nodes, root, name, j),
        },
    decreases nodes.len() - k,
{
    if 0 <= k < nodes.len() {
        if !spec_name_matches_at(nodes, root, name, k) {
            lemma_resolve_from_props(nodes, root, name, k + 1);
        }
    }
}

/// The same, for the whole scan.
pub proof fn lemma_resolve_props(nodes: Seq<Node>, root: int, name: Seq<char>)
    ensures
        match spec_resolve(nodes, root, name) {
            Some(i) => 0 <= i < nodes.len() && spec_name_matches_at(nodes, root, name, i)
                && forall|j: int| 0 <= j < i ==> !spec_name_matches_at(nodes, root, name, j),
            None => forall|j: int|
                0 <= j < nodes.len() ==> !spec_name_matches_at(nodes, root, name, j),
        },
{
    lemma_resolve_from_props(nodes, root, name, 0);
}

/// What bone resolution promises.
pub proof fn lemma_resolve_bone_from_props(nodes: Seq<Node>, root: int, bone: Seq<char>, k: int)
    requires
        0 <= k,
    ensures
        match spec_resolve_bone_from(nodes, root, bone, k) {
            Some(i) => k <= i < nodes.len() && spec_bone_matches_at(nodes, root, bone, i)
                && forall|j: int| k <= j < i ==> !spec_bone_matches_at(nodes, root, bone, j),
            None => forall|j: int|
                k <= j < nodes.len() ==> !spec_bone_matches_at(nodes, root, bone, j),
        },
    decreases nodes.len() - k,
{
    if 0 <= k < nodes.len() {
        if !spec_bone_matches_at(nodes, root, bone, k) {
            lemma_resolve_bone_from_props(nodes, root, bone, k + 1);
        }
    }
}

/// The same, for the whole scan.
pub proof fn lemma_resolve_bone_props(nodes: Seq<Node>, root: int, bone: Seq<char>)
    ensures
        match spec_resolve_bone(nodes, root, bone) {
            Some(i) => 0 <= i < nodes.len() && spec_bone_matches_at(nodes, root, bone, i)
                && forall|j: int| 0 <= j < i ==> !spec_bone_matches_at(nodes, root, bone, j),
            None => forall|j: int|
                0 <= j < nodes.len() ==> !spec_bone_matches_at(nodes, root, bone, j),
        },
{
    lemma_resolve_bone_from_props(nodes, root, bone, 0);
}

/// The scene: all nodes, in spawn order.
pub struct SceneWorld {
    pub nodes: Vec<Node>,
}

impl SceneWorld {
    /// Well-formedness: parents precede their children, every transform is
    /// within the coordinate bound, and attached links point inside the scene.
    pub open spec fn wf(self) -> bool {
        forall|i: int|
            0 <= i < self.nodes@.len() ==> {
                let nd = #[trigger] self.nodes@[i];
                &&& (nd.parent matches Some(p) ==> p < i)
                &&& nd.global_transform.spec_in_range()
                &&& (nd.rest_global_transform matches Some(t) ==> t.0.spec_in_range())
                &&& (nd.retarget_bone_to matches Some(t) ==> t < self.nodes@.len())
            }
    }

    pub open spec fn len(self) -> nat {
        self.nodes@.len()
    }

    /// An empty scene.
    pub fn new() -> (r: SceneWorld)
        ensures
            r.nodes@.len() == 0,
            r.wf(),
    {
        SceneWorld { nodes: Vec::new() }
    }

    /// The number of nodes.
    pub fn node_count(&self) -> (r: usize)
        ensures
            r == self.nodes@.len(),
    {
        self.nodes.len()
    }

    /// Spawns a node under `parent` and returns its index.
    pub fn spawn(
        &mut self,
        name: String,
        parent: Option<usize>,
        transform: Transform,
        global_transform: Transform,
    ) -> (r: usize)
        requires
            old(self).wf(),
            parent matches Some(p) ==> p < old(self).nodes@.len(),
            global_transform.spec_in_range(),
        ensures
            final(self).wf(),
            final(self).nodes@.len() == old(self).nodes@.len() + 1,
            r == old(self).nodes@.len(),
            forall|i: int| 0 <= i < old(self).nodes@.len()
                ==> final(self).nodes@[i] == old(self).nodes@[i],
            final(self).nodes@[r as int].name == name,
            final(self).nodes@[r as int].parent == parent,
            final(self).nodes@[r as int].transform == transform,
            final(self).nodes@[r as int].global_transform == global_transform,
            !final(self).nodes@[r as int].transform_changed,
            !final(self).nodes@[r as int].vrm,
            !final(self).nodes@[r as int].vrma,
            final(self).nodes@[r as int].bone is None,
            !final(self).nodes@[r as int].hips,
            final(self).nodes@[r as int].rest_transform is None,
            final(self).nodes@[r as int].rest_global_transform is None,
            final(self).nodes@[r as int].joint_props is None,
            final(self).nodes@[r as int].collider_shape is None,
            final(self).nodes@[r as int].spring_root is None,
            final(self).nodes@[r as int].joint_state is None,
            !final(self).nodes@[r as int].retarget_source,
            final(self).nodes@[r as int].retarget_bone_to is None,
            !final(self).nodes@[r as int].current_retargeting,
            final(self).nodes@[r as int].animation_player is None,
            final(self).nodes@[r as int].animation_graph is None,
            final(self).nodes@[r as int].animation_player_entity_to is None,
            final(self).nodes@[r as int].graph_handle is None,
    {
        let idx = self.nodes.len();
        self.nodes.push(Node::new(name, parent, transform, global_transform));
        idx
    }

    /// Writes a node's local transform, marking it changed; this is how pose
    /// data (or anything else outside the passes) moves a node.
    pub fn set_local_transform(&mut self, i: usize, transform: Transform)
        requires
            old(self).wf(),
            i < old(self).nodes@.len(),
        ensures
            final(self).wf(),
            final(self).nodes@.len() == old(self).nodes@.len(),
            forall|j: int|
                0 <= j < old(self).nodes@.len() && j != i ==> final(self).nodes@[j] == old(
                    self,
                ).nodes@[j],
            final(self).nodes@[i as int] == (Node {
                transform,
                transform_changed: true,
                ..old(self).nodes@[i as int]
            }),
    {
        let nd = &mut self.nodes[i];
        nd.transform = transform;
        nd.transform_changed = true;
    }

    /// Writes a node's world transform; the external scene graph does this
    /// when it propagates transforms.
    pub fn set_global_transform(&mut self, i: usize, transform: Transform)
        requires
            old(self).wf(),
            i < old(self).nodes@.len(),
            transform.spec_in_range(),
        ensures
            final(self).wf(),
            final(self).nodes@.len() == old(self).nodes@.len(),
            forall|j: int|
                0 <= j < old(self).nodes@.len() && j != i ==> final(self).nodes@[j] == old(
                    self,
                ).nodes@[j],
            final(self).nodes@[i as int] == (Node {
                global_transform: transform,
                ..old(self).nodes@[i as int]
            }),
    {
        let nd = &mut self.nodes[i];
        nd.global_transform = transform;
    }

    /// Marks a node as a model rig root or an animation rig root (or neither);
    /// the external spawner tags rig roots this way as it creates them.
    pub fn set_rig_markers(&mut self, i: usize, vrm: bool, vrma: bool)
        requires
            old(self).wf(),
            i < old(self).nodes@.len(),
        ensures
            final(self).wf(),
            final(self).nodes@.len() == old(self).nodes@.len(),
            forall|j: int|
                0 <= j < old(self).nodes@.len() && j != i ==> final(self).nodes@[j] == old(
                    self,
                ).nodes@[j],
            final(self).nodes@[i as int] == (Node { vrm, vrma, ..old(self).nodes@[i as int] }),
    {
        let nd = &mut self.nodes[i];
        nd.vrm = vrm;
        nd.vrma = vrma;
    }

    /// Toggles the "currently retargeting" marker on a node; the playback
    /// controller owns this marker.
    pub fn set_current_retargeting(&mut self, i: usize, value: bool)
        requires
            old(self).wf(),
            i < old(self).nodes@.len(),
        ensures
            final(self).wf(),
            final(self).nodes@.len() == old(self).nodes@.len(),
            forall|j: int|
                0 <= j < old(self).nodes@.len() && j != i ==> final(self).nodes@[j] == old(
                    self,
                ).nodes@[j],
            final(self).nodes@[i as int] == (Node {
                current_retargeting: value,
                ..old(self).nodes@[i as int]
            }),
    {
        let nd = &mut self.nodes[i];
        nd.current_retargeting = value;
    }

    /// Whether node `i` lies in the subtree of `root`.
    pub fn is_in_subtree(&self, root: usize, i: usize) -> (r: bool)
        requires
            self.wf(),
            root < self.nodes@.len(),
            i < self.nodes@.len(),
        ensures
            r == spec_in_subtree(self.nodes@, root as int, i as int),
    {
        let mut cur: usize = i;
        loop
            invariant
                self.wf(),
                cur < self.nodes@.len(),
                root < self.nodes@.len(),
                i < self.nodes@.len(),
                spec_in_subtree(self.nodes@, root as int, i as int) == spec_in_subtree(
                    self.nodes@,
                    root as int,
                    cur as int,
                ),
            decreases cur,
        {
            if cur == root {
                return true;
            }
            match self.nodes[cur].parent {
                Some(p) => {
                    assert(p < cur);
                    cur = p;
                },
                None => {
                    return false;
                },
            }
        }
    }

    /// The node resolver: the least-index node in the subtree of `root` whose
    /// name is `name`, revisited every pass until the scene has spawned it.
    pub fn find_from_name(&self, root: usize, name: &String) -> (r: Option<usize>)
        requires
            self.wf(),
            root < self.nodes@.len(),
        ensures
            match r {
                Some(i) => i < self.nodes@.len() && spec_resolve(self.nodes@, root as int, name@)
                    == Some(i as int),
                None => spec_resolve(self.nodes@, root as int, name@) is None,
            },
    {
        let n = self.nodes.len();
        let mut k: usize = 0;
        while k < n
            invariant
                self.wf(),
                root < self.nodes@.len(),
                n == self.nodes@.len(),
                k <= n,
                spec_resolve(self.nodes@, root as int, name@) == spec_resolve_from(
                    self.nodes@,
                    root as int,
                    name@,
                    k as int,
                ),
            decreases n - k,
        {
            if self.is_in_subtree(root, k) && self.nodes[k].name == *name {
                return Some(k);
            }
            k = k + 1;
        }
        None
    }

    /// The resolver by bone identifier: the least-index node in the subtree of
    /// `root` tagged with `bone`.
    pub fn find_from_bone_name(&self, root: usize, bone: &VrmBone) -> (r: Option<usize>)
        requires
            self.wf(),
            root < self.nodes@.len(),
        ensures
            match r {
                Some(i) => i < self.nodes@.len() && spec_resolve_bone(
                    self.nodes@,
                    root as int,
                    bone@,
                ) == Some(i as int),
                None => spec_resolve_bone(self.nodes@, root as int, bone@) is None,
            },
    {
        let n = self.nodes.len();
        let mut k: usize = 0;
        while k < n
            invariant
                self.wf(),
                root < self.nodes@.len(),
                n == self.nodes@.len(),
                k <= n,
                spec_resolve_bone(self.nodes@, root as int, bone@) == spec_resolve_bone_from(
                    self.nodes@,
                    root as int,
                    bone@,
                    k as int,
                ),
            decreases n - k,
        {
            let tagged = match &self.nodes[k].bone {
                Some(b) => b.0 == bone.0,
                None => false,
            };
            if tagged && self.is_in_subtree(root, k) {
                return Some(k);
            }
            k = k + 1;
        }
        None
    }
}


/// Entry `k` of a name-keyed registry resolves to node `i`.
pub open spec fn spec_kv_resolves_to<V>(
    nodes0: Seq<Node>,
    root: int,
    reg: Seq<(String, V)>,
    k: int,
    i: int,
) -> bool {
    0 <= k < reg.len() && spec_resolve(nodes0, root, reg[k].0@) == Some(i)
}

/// The last entry among the first `upto` of a name-keyed registry that
/// resolves to node `i`.
pub open spec fn spec_kv_winner<V>(
    nodes0: Seq<Node>,
    root: int,
    reg: Seq<(String, V)>,
    upto: int,
    i: int,
) -> Option<int>
    decreases upto,
{
    if upto <= 0 {
        None
    } else if spec_kv_resolves_to(nodes0, root, reg, upto - 1, i) {
        Some(upto - 1)
    } else {
        spec_kv_winner(nodes0, root, reg, upto - 1, i)
    }
}

/// No winner means no entry resolves to the node.
pub proof fn lemma_kv_winner_none<V>(
    nodes0: Seq<Node>,
    root: int,
    reg: Seq<(String, V)>,
    upto: int,
    i: int,
)
    ensures
        (spec_kv_winner(nodes0, root, reg, upto, i) is None) == (forall|k: int|
            0 <= k < upto ==> !spec_kv_resolves_to(nodes0, root, reg, k, i)),
    decreases upto,
{
    if upto > 0 {
        lemma_kv_winner_none(nodes0, root, reg, upto - 1, i);
    }
}

/// If entry `k` resolves to node `i` and no later entry does, `k` wins.
pub proof fn lemma_kv_winner_last<V>(
    nodes0: Seq<Node>,
    root: int,
    reg: Seq<(String, V)>,
    upto: int,
    k: int,
    i: int,
)
    requires
        0 <= k < upto,
        spec_kv_resolves_to(nodes0, root, reg, k, i),
        forall|k2: int| k < k2 < upto ==> !spec_kv_resolves_to(nodes0, root, reg, k2, i),
    ensures
        spec_kv_winner(nodes0, root, reg, upto, i) == Some(k),
    decreases upto,
{
    if upto - 1 > k {
        lemma_kv_winner_last(nodes0, root, reg, upto - 1, k, i);
    }
}

/// In a registry with pairwise-distinct names, the entry that resolves to a
/// node is unique, and it is the winner.
pub proof fn lemma_kv_winner_unique_names<V>(
    nodes0: Seq<Node>,
    root: int,
    reg: Seq<(String, V)>,
    k: int,
    i: int,
)
    requires
        0 <= k < reg.len(),
        spec_resolve(nodes0, root, reg[k].0@) == Some(i),
        forall|k1: int, k2: int|
            0 <= k1 < k2 < reg.len() ==> (#[trigger] reg[k1]).0@ != (#[trigger] reg[k2]).0@,
    ensures
        spec_kv_winner(nodes0, root, reg, reg.len() as int, i) == Some(k),
{
    lemma_resolve_props(nodes0, root, reg[k].0@);
    assert forall|k2: int| k < k2 < reg.len() implies !spec_kv_resolves_to(
        nodes0,
        root,
        reg,
        k2,
        i,
    ) by {
        if spec_kv_resolves_to(nodes0, root, reg, k2, i) {
            lemma_resolve_props(nodes0, root, reg[k2].0@);
            assert(nodes0[i].name@ == reg[k2].0@);
            assert(nodes0[i].name@ == reg[k].0@);
        }
    }
    lemma_kv_winner_last(nodes0, root, reg, reg.len() as int, k, i);
}

/// Resolves a name against a scene whose tree shape matches the ghost
/// snapshot `nodes0`, and states the result over the snapshot. The passes use
/// this: they mutate only attachments, never names or parents, so resolution
/// against the live scene and against the snapshot agree.
pub fn resolve_against(
    world: &SceneWorld,
    root: usize,
    name: &String,
    Ghost(nodes0): Ghost<Seq<Node>>,
) -> (r: Option<usize>)
    requires
        world.wf(),
        root < world.nodes@.len(),
        same_tree_shape(world.nodes@, nodes0),
    ensures
        match r {
            Some(i) => i < nodes0.len() && spec_resolve(nodes0, root as int, name@) == Some(
                i as int,
            ),
            None => spec_resolve(nodes0, root as int, name@) is None,
        },
{
    proof {
        lemma_resolve_same_shape(world.nodes@, nodes0, root as int, name@);
    }
    world.find_from_name(root, name)
}

/// The bone-tag analogue of [`resolve_against`]: the snapshot must also agree
/// on bone tags.
pub fn resolve_bone_against(
    world: &SceneWorld,
    root: usize,
    bone: &VrmBone,
    Ghost(nodes0): Ghost<Seq<Node>>,
) -> (r: Option<usize>)
    requires
        world.wf(),
        root < world.nodes@.len(),
        same_bone_shape(world.nodes@, nodes0),
    ensures
        match r {
            Some(i) => i < nodes0.len() && spec_resolve_bone(nodes0, root as int, bone@) == Some(
                i as int,
            ),
            None => spec_resolve_bone(nodes0, root as int, bone@) is None,
        },
{
    proof {
        lemma_resolve_bone_same_shape(world.nodes@, nodes0, root as int, bone@);
    }
    world.find_from_bone_name(root, bone)
}


/// Whether every node name in the bone registry currently resolves under
/// `root`: the readiness check the spring stages gate on.
pub open spec fn spec_all_bones_spawned(
    nodes: Seq<Node>,
    root: int,
    reg: Seq<(VrmBone, String)>,
) -> bool {
    forall|k: int| 0 <= k < reg.len() ==> spec_resolve(nodes, root, (#[trigger] reg[k]).1@) is Some
}

impl SceneWorld {
    /// Reports whether every bone name in the registry resolves under `root`.
    pub fn has_been_spawned_all_bones(&self, root: usize, registry: &HumanoidBoneRegistry) -> (r:
        bool)
        requires
            self.wf(),
            root < self.nodes@.len(),
        ensures
            r == spec_all_bones_spawned(self.nodes@, root as int, registry.0@),
    {
        let n = registry.0.len();
        let mut k: usize = 0;
        while k < n
            invariant
                self.wf(),
                root < self.nodes@.len(),
                n == registry.0@.len(),
                k <= n,
                forall|k2: int|
                    0 <= k2 < k ==> spec_resolve(
                        self.nodes@,
                        root as int,
                        (#[trigger] registry.0@[k2]).1@,
                    ) is Some,
            decreases n - k,
        {
            if self.find_from_name(root, &registry.0[k].1).is_none() {
                return false;
            }
            k = k + 1;
        }
        true
    }
}


/// A subtree's root never has a larger index than its members: parent links
/// only ever point downward.
pub proof fn lemma_in_subtree_le(nodes: Seq<Node>, root: int, i: int)
    requires
        spec_in_subtree(nodes, root, i),
    ensures
        root <= i,
    decreases i,
{
    if i != root {
        match nodes[i].parent {
            Some(p) => {
                lemma_in_subtree_le(nodes, root, p as int);
            },
            None => {},
        }
    }
}

/// Two subtree roots above the same node lie on one parent chain: one contains
/// the other.
pub proof fn lemma_in_subtree_chain(nodes: Seq<Node>, a: int, b: int, n: int)
    requires
        spec_in_subtree(nodes, a, n),
        spec_in_subtree(nodes, b, n),
    ensures
        spec_in_subtree(nodes, a, b) || spec_in_subtree(nodes, b, a),
    decreases n,
{
    if n != a && n != b {
        match nodes[n].parent {
            Some(p) => {
                lemma_in_subtree_chain(nodes, a, b, p as int);
            },
            None => {},
        }
    }
}

/// The subtrees of two distinct children of one node are disjoint.
pub proof fn lemma_sibling_subtrees_disjoint(
    nodes: Seq<Node>,
    trigger: usize,
    c1: int,
    c2: int,
    n: int,
)
    requires
        0 <= c1 < nodes.len(),
        0 <= c2 < nodes.len(),
        c1 != c2,
        nodes[c1].parent == Some(trigger),
        nodes[c2].parent == Some(trigger),
        trigger < c1,
        trigger < c2,
    ensures
        !(spec_in_subtree(nodes, c1, n) && spec_in_subtree(nodes, c2, n)),
{
    if spec_in_subtree(nodes, c1, n) && spec_in_subtree(nodes, c2, n) {
        lemma_in_subtree_chain(nodes, c1, c2, n);
        if spec_in_subtree(nodes, c1, c2) {
            assert(spec_in_subtree(nodes, c1, trigger as int));
            lemma_in_subtree_le(nodes, c1, trigger as int);
        } else {
            assert(spec_in_subtree(nodes, c2, c1));
            assert(spec_in_subtree(nodes, c2, trigger as int));
            lemma_in_subtree_le(nodes, c2, trigger as int);
        }
    }
}

} // verus!
