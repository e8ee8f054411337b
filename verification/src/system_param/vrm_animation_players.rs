//! Driving an animation rig's player: starting every clip of its graph, or
//! stopping them all.

use vstd::prelude::*;
use crate::vrma::VrmaEntity;
use crate::vrma::animation::AnimationPlayer;
use crate::world::{Node, SceneWorld};

verus! {

/// Whether an animation rig's player can be driven: the rig root records a
/// player node that exists and holds a player, and the rig root holds its
/// animation graph.
pub open spec fn spec_player_ready(nodes0: Seq<Node>, vrma: int) -> bool {
    &&& 0 <= vrma < nodes0.len()
    &&& match nodes0[vrma].animation_player_entity_to {
        Some(pe) => pe < nodes0.len() && nodes0[pe as int].animation_player is Some,
        None => false,
    }
    &&& nodes0[vrma].animation_graph is Some
}

/// The rig's player node (or -1 when none is recorded).
pub open spec fn spec_player_node(nodes0: Seq<Node>, vrma: int) -> int {
    match nodes0[vrma].animation_player_entity_to {
        Some(pe) => pe as int,
        None => -1,
    }
}

/// The clip nodes of the rig's animation graph.
pub open spec fn spec_graph_nodes(nodes0: Seq<Node>, vrma: int) -> Seq<usize> {
    match nodes0[vrma].animation_graph {
        Some(g) => g.nodes@,
        None => Seq::empty(),
    }
}

/// Drives the player of one animation rig.
pub struct VrmaPlayer;

impl VrmaPlayer {
    /// Plays the rig's animation: stops whatever its player was running, then
    /// starts every clip node of the rig's graph, each repeating when asked.
    /// A rig without a recorded, existing player is left alone.
    pub fn play(world: &mut SceneWorld, vrma: VrmaEntity, is_repeat: bool)
        requires
            old(world).wf(),
            vrma.0 < old(world).nodes@.len(),
        ensures
            final(world).wf(),
            final(world).nodes@.len() == old(world).nodes@.len(),
            !spec_player_ready(old(world).nodes@, vrma.0 as int) ==> final(world).nodes@ == old(
                world,
            ).nodes@,
            spec_player_ready(old(world).nodes@, vrma.0 as int) ==> {
                let nodes0 = old(world).nodes@;
                let pe = spec_player_node(nodes0, vrma.0 as int);
                let clips = spec_graph_nodes(nodes0, vrma.0 as int);
                &&& forall|n: int|
                    0 <= n < nodes0.len() && n != pe ==> final(world).nodes@[n] == nodes0[n]
                &&& final(world).nodes@[pe].animation_player matches Some(p) && p.playing@.len()
                    == clips.len() && (forall|q: int|
                    0 <= q < clips.len() ==> (#[trigger] p.playing@[q]) == (clips[q], is_repeat))
                &&& final(world).nodes@[pe] == (Node {
                    animation_player: final(world).nodes@[pe].animation_player,
                    ..nodes0[pe]
                })
            },
    {
        let ghost nodes0 = world.nodes@;
        let pe = match world.nodes[vrma.0].animation_player_entity_to {
            Some(pe) => pe,
            None => {
                return ;
            },
        };
        if pe >= world.nodes.len() {
            return ;
        }
        if world.nodes[pe].animation_player.is_none() {
            return ;
        }
        let clips: Vec<usize> = {
            let mut tmp: Vec<usize> = Vec::new();
            match &world.nodes[vrma.0].animation_graph {
                Some(g) => {
                    let mut q: usize = 0;
                    while q < g.nodes.len()
                        invariant
                            q <= g.nodes@.len(),
                            tmp@ == g.nodes@.subrange(0, q as int),
                        decreases g.nodes@.len() - q,
                    {
                        tmp.push(g.nodes[q]);
                        assert(tmp@ =~= g.nodes@.subrange(0, q as int + 1));
                        q = q + 1;
                    }
                    assert(tmp@ =~= g.nodes@);
                },
                None => {
                    return ;
                },
            }
            tmp
        };
        let mut playing: Vec<(usize, bool)> = Vec::new();
        let mut q: usize = 0;
        while q < clips.len()
            invariant
                q <= clips@.len(),
                playing@.len() == q,
                forall|j: int| 0 <= j < q ==> (#[trigger] playing@[j]) == (clips@[j], is_repeat),
            decreases clips@.len() - q,
        {
            playing.push((clips[q], is_repeat));
            q = q + 1;
        }
        let nd = &mut world.nodes[pe];
        nd.animation_player = Some(AnimationPlayer { playing });
    }

    /// Stops everything the rig's player is running. A rig without a recorded,
    /// existing player is left alone.
    pub fn stop(world: &mut SceneWorld, vrma: VrmaEntity)
        requires
            old(world).wf(),
            vrma.0 < old(world).nodes@.len(),
        ensures
            final(world).wf(),
            final(world).nodes@.len() == old(world).nodes@.len(),
            !spec_player_ready(old(world).nodes@, vrma.0 as int) ==> final(world).nodes@ == old(
                world,
            ).nodes@,
            spec_player_ready(old(world).nodes@, vrma.0 as int) ==> {
                let nodes0 = old(world).nodes@;
                let pe = spec_player_node(nodes0, vrma.0 as int);
                &&& forall|n: int|
                    0 <= n < nodes0.len() && n != pe ==> final(world).nodes@[n] == nodes0[n]
                &&& final(world).nodes@[pe].animation_player matches Some(p) && p.playing@.len()
                    == 0
                &&& final(world).nodes@[pe] == (Node {
                    animation_player: final(world).nodes@[pe].animation_player,
                    ..nodes0[pe]
                })
            },
    {
        let pe = match world.nodes[vrma.0].animation_player_entity_to {
            Some(pe) => pe,
            None => {
                return ;
            },
        };
        if pe >= world.nodes.len() {
            return ;
        }
        if world.nodes[pe].animation_player.is_none() {
            return ;
        }
        if world.nodes[vrma.0].animation_graph.is_none() {
            return ;
        }
        let nd = &mut world.nodes[pe];
        nd.animation_player = Some(AnimationPlayer { playing: Vec::new() });
    }
}

} // verus!
