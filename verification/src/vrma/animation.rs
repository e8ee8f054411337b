//! The animation player model: which graph nodes a rig's player is running,
//! and the pass that associates a freshly spawned player with its rig root.

use vstd::prelude::*;
use crate::world::{
    lemma_in_subtree_same_shape, spec_in_subtree, Node, SceneWorld,
};

pub mod play;
pub mod player;
pub mod setup;

verus! {

/// After an animation rig spawns, its player node is spawned below it. This
/// holds that player node's index on the rig root; the scene model carries it
/// as a node's `animation_player_entity_to` field.
#[derive(Debug, Clone, Copy, PartialEq, Eq, Structural)]
pub struct AnimationPlayerEntityTo(pub usize);

/// The animation graph of one rig: an opaque graph handle and the indices of
/// the clip nodes inside the graph.
#[derive(Debug, Clone, PartialEq, Eq)]
pub struct VrmAnimationGraph {
    pub handle: usize,
    pub nodes: Vec<usize>,
}

impl Default for VrmAnimationGraph {
    /// An empty graph under handle zero.
    fn default() -> (r: Self)
        ensures
            r.handle == 0,
            r.nodes@.len() == 0,
    {
        VrmAnimationGraph { handle: 0, nodes: Vec::new() }
    }
}

/// What an animation player is running: each entry is a graph node index and
/// whether it repeats. An empty list means everything has finished.
#[derive(Debug, Clone, PartialEq, Eq)]
pub struct AnimationPlayer {
    pub playing: Vec<(usize, bool)>,
}

impl Default for AnimationPlayer {
    /// A player running nothing.
    fn default() -> (r: Self)
        ensures
            r.playing@.len() == 0,
    {
        AnimationPlayer { playing: Vec::new() }
    }
}

impl AnimationPlayer {
    /// True when no animation is active on this player.
    pub fn all_finished(&self) -> (r: bool)
        ensures
            r == (self.playing@.len() == 0),
    {
        self.playing.len() == 0
    }
}

/// What the playback controller does when a clip starts or stops on a rig:
/// every retarget-source node in the rig's subtree has its "currently
/// retargeting" marker set to `value`; every other node is untouched.
pub fn set_retargeting_in_subtree(world: &mut SceneWorld, root: usize, value: bool)
    requires
        old(world).wf(),
        root < old(world).nodes@.len(),
    ensures
        final(world).wf(),
        final(world).nodes@.len() == old(world).nodes@.len(),
        forall|n: int|
            0 <= n < old(world).nodes@.len() ==> #[trigger] final(world).nodes@[n] == (
            if spec_in_subtree(old(world).nodes@, root as int, n) && old(
                world,
            ).nodes@[n].retarget_source {
                Node { current_retargeting: value, ..old(world).nodes@[n] }
            } else {
                old(world).nodes@[n]
            }),
{
    let ghost nodes0 = world.nodes@;
    let total = world.nodes.len();
    let mut n: usize = 0;
    while n < total
        invariant
            world.wf(),
            world.nodes@.len() == nodes0.len(),
            root < nodes0.len(),
            total == nodes0.len(),
            n <= total,
            forall|m: int|
                0 <= m < nodes0.len() ==> #[trigger] world.nodes@[m] == (
                if m < n && spec_in_subtree(nodes0, root as int, m) && nodes0[m].retarget_source {
                    Node { current_retargeting: value, ..nodes0[m] }
                } else {
                    nodes0[m]
                }),
        decreases total - n,
    {
        proof {
            assert forall|m: int| 0 <= m < nodes0.len() implies (#[trigger] world.nodes@[m]).name@
                == nodes0[m].name@ && world.nodes@[m].parent == nodes0[m].parent by {}
            lemma_in_subtree_same_shape(world.nodes@, nodes0, root as int, n as int);
        }
        if world.is_in_subtree(root, n) && world.nodes[n].retarget_source {
            let nd = &mut world.nodes[n];
            nd.current_retargeting = value;
        }
        n = n + 1;
    }
}

} // verus!
