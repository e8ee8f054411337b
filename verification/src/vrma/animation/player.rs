//! Play and stop requests addressed directly to an animation rig, and the
//! handlers that run them.

use vstd::prelude::*;
use crate::system_param::vrm_animation_players::{
    spec_graph_nodes, spec_player_node, spec_player_ready, VrmaPlayer,
};
use crate::vrma::VrmaEntity;
use crate::vrma::animation::set_retargeting_in_subtree;
use crate::world::{lemma_in_subtree_same_shape, spec_in_subtree, Node, SceneWorld};

verus! {

/// The request to play the addressed animation rig.
#[derive(Debug, Clone, Copy, PartialEq, Eq, Structural)]
pub struct PlayAnimation {
    /// Whether to loop the animation.
    pub repeat: bool,
}

/// The request to stop the addressed animation rig.
#[derive(Debug, Clone, Copy, PartialEq, Eq, Structural)]
pub struct StopAnimation;

/// Node `cur` (at index `n`) is what a direct play request on rig `vrma`
/// leaves behind: the rig's player runs every clip of its graph, its
/// retarget-source nodes are marked as currently retargeting, everything else
/// is untouched.
pub open spec fn spec_direct_play_state(
    nodes0: Seq<Node>,
    vrma: int,
    repeat: bool,
    mark: bool,
    stopped: bool,
    cur: Node,
    n: int,
) -> bool {
    &&& (spec_player_ready(nodes0, vrma) && n == spec_player_node(nodes0, vrma) ==> (
    cur.animation_player matches Some(p) && (if stopped {
        p.playing@.len() == 0
    } else {
        p.playing@.len() == spec_graph_nodes(nodes0, vrma).len() && (forall|q: int|
            0 <= q < p.playing@.len() ==> (#[trigger] p.playing@[q]) == (
            spec_graph_nodes(nodes0, vrma)[q], repeat))
    })))
    &&& (!(spec_player_ready(nodes0, vrma) && n == spec_player_node(nodes0, vrma))
        ==> cur.animation_player == nodes0[n].animation_player)
    &&& (spec_in_subtree(nodes0, vrma, n) && nodes0[n].retarget_source ==> cur.current_retargeting
        == mark)
    &&& (!(spec_in_subtree(nodes0, vrma, n) && nodes0[n].retarget_source)
        ==> cur.current_retargeting == nodes0[n].current_retargeting)
    &&& cur == (Node {
        animation_player: cur.animation_player,
        current_retargeting: cur.current_retargeting,
        ..nodes0[n]
    })
}

/// Handles a play request addressed directly to one animation rig: its player
/// runs every clip of its graph, and its retarget-source nodes are marked as
/// currently retargeting.
pub fn observe_play_animation(world: &mut SceneWorld, vrma: VrmaEntity, event: &PlayAnimation)
    requires
        old(world).wf(),
        vrma.0 < old(world).nodes@.len(),
    ensures
        final(world).wf(),
        final(world).nodes@.len() == old(world).nodes@.len(),
        forall|n: int|
            0 <= n < old(world).nodes@.len() ==> spec_direct_play_state(
                old(world).nodes@,
                vrma.0 as int,
                event.repeat,
                true,
                false,
                #[trigger] final(world).nodes@[n],
                n,
            ),
{
    let ghost nodes0 = world.nodes@;
    VrmaPlayer::play(world, vrma, event.repeat);
    let ghost mid = world.nodes@;
    set_retargeting_in_subtree(world, vrma.0, true);
    proof {
        assert forall|m: int| 0 <= m < nodes0.len() implies (#[trigger] mid[m]).name@
            == nodes0[m].name@ && mid[m].parent == nodes0[m].parent by {}
        assert forall|n: int| 0 <= n < nodes0.len() implies spec_direct_play_state(
            nodes0,
            vrma.0 as int,
            event.repeat,
            true,
            false,
            #[trigger] world.nodes@[n],
            n,
        ) by {
            lemma_in_subtree_same_shape(mid, nodes0, vrma.0 as int, n);
        }
    }
}

/// Handles a stop request addressed directly to one animation rig: its player
/// stops, and its retarget-source nodes lose their mark.
pub fn observe_stop_animation(world: &mut SceneWorld, vrma: VrmaEntity, _event: &StopAnimation)
    requires
        old(world).wf(),
        vrma.0 < old(world).nodes@.len(),
    ensures
        final(world).wf(),
        final(world).nodes@.len() == old(world).nodes@.len(),
        forall|n: int|
            0 <= n < old(world).nodes@.len() ==> spec_direct_play_state(
                old(world).nodes@,
                vrma.0 as int,
                false,
                false,
                true,
                #[trigger] final(world).nodes@[n],
                n,
            ),
{
    let ghost nodes0 = world.nodes@;
    VrmaPlayer::stop(world, vrma);
    let ghost mid = world.nodes@;
    set_retargeting_in_subtree(world, vrma.0, false);
    proof {
        assert forall|m: int| 0 <= m < nodes0.len() implies (#[trigger] mid[m]).name@
            == nodes0[m].name@ && mid[m].parent == nodes0[m].parent by {}
        assert forall|n: int| 0 <= n < nodes0.len() implies spec_direct_play_state(
            nodes0,
            vrma.0 as int,
            false,
            false,
            true,
            #[trigger] world.nodes@[n],
            n,
        ) by {
            lemma_in_subtree_same_shape(mid, nodes0, vrma.0 as int, n);
        }
    }
}

} // verus!
