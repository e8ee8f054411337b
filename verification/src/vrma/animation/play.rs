//! Play and stop requests addressed to one animation rig under a model rig,
//! and the handlers that run them.

use vstd::prelude::*;
use crate::system_param::vrm_animation_players::{
    spec_graph_nodes, spec_player_node, spec_player_ready, VrmaPlayer,
};
use crate::vrma::VrmaEntity;
use crate::vrma::animation::set_retargeting_in_subtree;
use crate::world::{
    lemma_in_subtree_same_shape, lemma_sibling_subtrees_disjoint, spec_in_subtree, Node, SceneWorld,
};

verus! {

/// The request to play one animation rig's animation.
#[derive(Debug, Clone, Copy, PartialEq, Eq, Structural)]
pub struct PlayVrma {
    /// The animation rig to play.
    pub vrma: VrmaEntity,
    /// Whether to loop the animation.
    pub repeat: bool,
}

/// The request to stop every animation under the addressed model rig.
#[derive(Debug, Clone, Copy, PartialEq, Eq, Structural)]
pub struct StopVrma;

/// Whether node `c` is an animation rig directly under the model rig root
/// `trigger`.
pub open spec fn spec_vrma_child(nodes0: Seq<Node>, trigger: usize, c: int) -> bool {
    0 <= c < nodes0.len() && nodes0[c].parent == Some(trigger) && nodes0[c].vrma
}

/// The last animation rig among the first `upto` children whose (ready)
/// player lives at node `n`.
pub open spec fn spec_observe_player_winner(
    nodes0: Seq<Node>,
    trigger: usize,
    upto: int,
    n: int,
) -> Option<int>
    decreases upto,
{
    if upto <= 0 {
        None
    } else if spec_vrma_child(nodes0, trigger, upto - 1) && spec_player_ready(nodes0, upto - 1)
        && spec_player_node(nodes0, upto - 1) == n {
        Some(upto - 1)
    } else {
        spec_observe_player_winner(nodes0, trigger, upto - 1, n)
    }
}

/// A winner satisfies the winning condition.
pub proof fn lemma_observe_player_winner_some(
    nodes0: Seq<Node>,
    trigger: usize,
    upto: int,
    n: int,
)
    ensures
        spec_observe_player_winner(nodes0, trigger, upto, n) matches Some(w) ==> 0 <= w < upto
            && spec_vrma_child(nodes0, trigger, w) && spec_player_ready(nodes0, w)
            && spec_player_node(nodes0, w) == n,
    decreases upto,
{
    if upto > 0 {
        lemma_observe_player_winner_some(nodes0, trigger, upto - 1, n);
    }
}

/// No winner means no processed rig's player lives at the node.
pub proof fn lemma_observe_player_winner_none(
    nodes0: Seq<Node>,
    trigger: usize,
    upto: int,
    n: int,
)
    ensures
        (spec_observe_player_winner(nodes0, trigger, upto, n) is None) == (forall|c: int|
            0 <= c < upto ==> !(spec_vrma_child(nodes0, trigger, c) && spec_player_ready(nodes0, c)
                && spec_player_node(nodes0, c) == n)),
    decreases upto,
{
    if upto > 0 {
        lemma_observe_player_winner_none(nodes0, trigger, upto - 1, n);
    }
}

/// The player at `cur` holds what handling rig `c` leaves there: every clip of
/// the rig's graph when `c` is the one being played, nothing otherwise.
pub open spec fn spec_observe_player_ok(
    nodes0: Seq<Node>,
    played: int,
    repeat: bool,
    c: int,
    cur: Node,
) -> bool {
    match cur.animation_player {
        Some(p) => {
            if c == played {
                &&& p.playing@.len() == spec_graph_nodes(nodes0, c).len()
                &&& forall|q: int|
                    0 <= q < p.playing@.len() ==> (#[trigger] p.playing@[q]) == (
                    spec_graph_nodes(nodes0, c)[q], repeat)
            } else {
                p.playing@.len() == 0
            }
        },
        None => false,
    }
}

/// Some processed animation rig's subtree covers node `n`.
pub open spec fn spec_flag_covered(nodes0: Seq<Node>, trigger: usize, upto: int, n: int) -> bool {
    exists|c: int|
        0 <= c < upto && #[trigger] spec_vrma_child(nodes0, trigger, c) && spec_in_subtree(
            nodes0,
            c,
            n,
        )
}

/// Node `cur` (at index `n`) is what handling a play request leaves behind
/// after the first `upto` children: the played rig's player runs its clips and
/// every other processed rig's player runs nothing; retarget-source nodes
/// under the played rig are marked as currently retargeting and those under
/// the other processed rigs unmarked; everything else is untouched.
pub open spec fn spec_observe_play_state(
    nodes0: Seq<Node>,
    trigger: usize,
    played: int,
    repeat: bool,
    upto: int,
    cur: Node,
    n: int,
) -> bool {
    &&& match spec_observe_player_winner(nodes0, trigger, upto, n) {
        Some(c) => spec_observe_player_ok(nodes0, played, repeat, c, cur),
        None => cur.animation_player == nodes0[n].animation_player,
    }
    &&& forall|c: int|
        0 <= c < upto && #[trigger] spec_vrma_child(nodes0, trigger, c) && spec_in_subtree(
            nodes0,
            c,
            n,
        ) && nodes0[n].retarget_source ==> cur.current_retargeting == (c == played)
    &&& (!(spec_flag_covered(nodes0, trigger, upto, n) && nodes0[n].retarget_source)
        ==> cur.current_retargeting == nodes0[n].current_retargeting)
    &&& cur == (Node {
        animation_player: cur.animation_player,
        current_retargeting: cur.current_retargeting,
        ..nodes0[n]
    })
}

/// Handles a play request addressed to one animation rig under a model rig.
///
/// Runs only when `trigger` is a model rig root. Every animation rig directly
/// under it is handled: the addressed one plays (its player runs every clip of
/// its graph, repeating when asked) and its retarget-source nodes are marked
/// as currently retargeting; every other one stops and has those marks
/// cleared.
#[verifier::rlimit(100)]
pub fn observe_play_animation(world: &mut SceneWorld, trigger: usize, event: &PlayVrma)
    requires
        old(world).wf(),
        trigger < old(world).nodes@.len(),
    ensures
        final(world).wf(),
        final(world).nodes@.len() == old(world).nodes@.len(),
        !old(world).nodes@[trigger as int].vrm ==> final(world).nodes@ == old(world).nodes@,
        old(world).nodes@[trigger as int].vrm ==> forall|n: int|
            0 <= n < old(world).nodes@.len() ==> spec_observe_play_state(
                old(world).nodes@,
                trigger,
                event.vrma.0 as int,
                event.repeat,
                old(world).nodes@.len() as int,
                #[trigger] final(world).nodes@[n],
                n,
            ),
{
    if !world.nodes[trigger].vrm {
        return ;
    }
    let ghost nodes0 = world.nodes@;
    let ghost played = event.vrma.0 as int;
    let total = world.nodes.len();
    let mut c: usize = 0;
    while c < total
        invariant
            world.wf(),
            world.nodes@.len() == nodes0.len(),
            trigger < nodes0.len(),
            total == nodes0.len(),
            c <= total,
            played == event.vrma.0 as int,
            forall|m: int|
                0 <= m < nodes0.len() ==> ((#[trigger] nodes0[m]).parent matches Some(p) ==> p
                    < m),
            forall|n: int|
                0 <= n < nodes0.len() ==> spec_observe_play_state(
                    nodes0,
                    trigger,
                    played,
                    event.repeat,
                    c as int,
                    #[trigger] world.nodes@[n],
                    n,
                ),
        decreases total - c,
    {
        let ghost ci = c as int;
        let ghost upto = c as int + 1;
        let is_child = match world.nodes[c].parent {
            Some(p) => p == trigger,
            None => false,
        };
        if is_child && world.nodes[c].vrma {
            proof {
                assert(spec_vrma_child(nodes0, trigger, ci));
            }
            let ghost mid0 = world.nodes@;
            let to_play = c == event.vrma.0;
            if to_play {
                VrmaPlayer::play(world, VrmaEntity(c), event.repeat);
            } else {
                VrmaPlayer::stop(world, VrmaEntity(c));
            }
            let ghost mid1 = world.nodes@;
            proof {
                // readiness and the player node agree between the snapshot and
                // the live scene: the loop writes only players and marks
                assert(mid0[ci].animation_player_entity_to
                    == nodes0[ci].animation_player_entity_to);
                assert(mid0[ci].animation_graph == nodes0[ci].animation_graph);
                if spec_player_ready(nodes0, ci) {
                    let pe = spec_player_node(nodes0, ci);
                    assert(spec_observe_play_state(
                        nodes0,
                        trigger,
                        played,
                        event.repeat,
                        ci,
                        mid0[pe],
                        pe,
                    ));
                    match spec_observe_player_winner(nodes0, trigger, ci, pe) {
                        Some(w) => {
                            assert(mid0[pe].animation_player is Some);
                        },
                        None => {
                            assert(mid0[pe].animation_player == nodes0[pe].animation_player);
                        },
                    }
                    assert(spec_player_ready(mid0, ci));
                    assert(spec_player_node(mid0, ci) == pe);
                    assert(spec_graph_nodes(mid0, ci) == spec_graph_nodes(nodes0, ci));
                } else {
                    if spec_player_ready(mid0, ci) {
                        let pe = spec_player_node(mid0, ci);
                        assert(spec_player_node(nodes0, ci) == pe);
                        assert(spec_observe_play_state(
                            nodes0,
                            trigger,
                            played,
                            event.repeat,
                            ci,
                            mid0[pe],
                            pe,
                        ));
                        lemma_observe_player_winner_some(nodes0, trigger, ci, pe);
                        match spec_observe_player_winner(nodes0, trigger, ci, pe) {
                            Some(w) => {
                                assert(spec_player_ready(nodes0, w));
                                assert(spec_player_node(nodes0, w) == pe);
                                assert(nodes0[pe].animation_player is Some);
                            },
                            None => {
                                assert(mid0[pe].animation_player
                                    == nodes0[pe].animation_player);
                            },
                        }
                        assert(spec_player_ready(nodes0, ci));
                        assert(false);
                    }
                }
            }
            set_retargeting_in_subtree(world, c, to_play);
            proof {
                assert forall|m: int| 0 <= m < nodes0.len() implies (#[trigger] mid1[m]).name@
                    == nodes0[m].name@ && mid1[m].parent == nodes0[m].parent by {
                    assert(spec_observe_play_state(
                        nodes0,
                        trigger,
                        played,
                        event.repeat,
                        ci,
                        mid0[m],
                        m,
                    ));
                }
                assert forall|n: int| 0 <= n < nodes0.len() implies spec_observe_play_state(
                    nodes0,
                    trigger,
                    played,
                    event.repeat,
                    upto,
                    #[trigger] world.nodes@[n],
                    n,
                ) by {
                    lemma_in_subtree_same_shape(mid1, nodes0, ci, n);
                    assert(spec_observe_play_state(
                        nodes0,
                        trigger,
                        played,
                        event.repeat,
                        ci,
                        mid0[n],
                        n,
                    ));
                    // the flag marks written now take precedence; older ones
                    // stand because sibling subtrees are disjoint
                    if spec_in_subtree(nodes0, ci, n) && nodes0[n].retarget_source {
                        assert(world.nodes@[n].current_retargeting == to_play);
                        assert forall|c2: int|
                            0 <= c2 < upto && #[trigger] spec_vrma_child(nodes0, trigger, c2)
                                && spec_in_subtree(nodes0, c2, n) && nodes0[n].retarget_source
                            implies world.nodes@[n].current_retargeting == (c2 == played) by {
                            if c2 != ci {
                                assert(nodes0[c2].parent == Some(trigger) && trigger < c2);
                                assert(nodes0[ci].parent == Some(trigger) && trigger < ci);
                                lemma_sibling_subtrees_disjoint(nodes0, trigger, c2, ci, n);
                            }
                        }
                    } else {
                        assert(world.nodes@[n].current_retargeting
                            == mid1[n].current_retargeting);
                        assert forall|c2: int|
                            0 <= c2 < upto && #[trigger] spec_vrma_child(nodes0, trigger, c2)
                                && spec_in_subtree(nodes0, c2, n) && nodes0[n].retarget_source
                            implies world.nodes@[n].current_retargeting == (c2 == played) by {
                            assert(c2 < ci);
                            assert(mid1[n].current_retargeting == mid0[n].current_retargeting);
                        }
                        if spec_flag_covered(nodes0, trigger, upto, n) && nodes0[n].retarget_source {
                            let cw = choose|cw: int|
                                0 <= cw < upto && #[trigger] spec_vrma_child(nodes0, trigger, cw)
                                    && spec_in_subtree(nodes0, cw, n);
                            assert(spec_flag_covered(nodes0, trigger, ci, n));
                        }
                    }
                    // the player updates
                    if spec_player_ready(nodes0, ci) && spec_player_node(nodes0, ci) == n {
                        assert(spec_observe_player_winner(nodes0, trigger, upto, n) == Some(ci));
                        assert(world.nodes@[n].animation_player == mid1[n].animation_player);
                    } else {
                        assert(spec_observe_player_winner(nodes0, trigger, upto, n)
                            == spec_observe_player_winner(nodes0, trigger, ci, n));
                        if !spec_player_ready(nodes0, ci) {
                            assert(mid1[n] == mid0[n]);
                        } else {
                            assert(mid1[n].animation_player == mid0[n].animation_player);
                        }
                    }
                }
            }
        } else {
            proof {
                assert(!spec_vrma_child(nodes0, trigger, ci));
                assert forall|n: int| 0 <= n < nodes0.len() implies spec_observe_play_state(
                    nodes0,
                    trigger,
                    played,
                    event.repeat,
                    upto,
                    #[trigger] world.nodes@[n],
                    n,
                ) by {
                    assert(spec_observe_play_state(
                        nodes0,
                        trigger,
                        played,
                        event.repeat,
                        ci,
                        world.nodes@[n],
                        n,
                    ));
                    assert(spec_observe_player_winner(nodes0, trigger, upto, n)
                        == spec_observe_player_winner(nodes0, trigger, ci, n));
                    if spec_flag_covered(nodes0, trigger, upto, n) {
                        let cw = choose|cw: int|
                            0 <= cw < upto && #[trigger] spec_vrma_child(nodes0, trigger, cw)
                                && spec_in_subtree(nodes0, cw, n);
                        assert(spec_flag_covered(nodes0, trigger, ci, n));
                    }
                }
            }
        }
        c = c + 1;
    }
}

/// Some animation rig stands among the first `upto` children.
pub open spec fn spec_any_vrma_child(nodes0: Seq<Node>, trigger: usize, upto: int) -> bool {
    exists|c: int| 0 <= c < upto && #[trigger] spec_vrma_child(nodes0, trigger, c)
}

/// Node `cur` (at index `n`) is what handling a stop request leaves behind
/// after the first `upto` children: every processed rig's player runs nothing,
/// and once any rig was processed, every retarget-source node under the model
/// rig root has its mark cleared; everything else is untouched.
pub open spec fn spec_observe_stop_state(
    nodes0: Seq<Node>,
    trigger: usize,
    upto: int,
    cur: Node,
    n: int,
) -> bool {
    &&& match spec_observe_player_winner(nodes0, trigger, upto, n) {
        Some(c) => cur.animation_player matches Some(p) && p.playing@.len() == 0,
        None => cur.animation_player == nodes0[n].animation_player,
    }
    &&& (spec_any_vrma_child(nodes0, trigger, upto) && spec_in_subtree(nodes0, trigger as int, n)
        && nodes0[n].retarget_source ==> !cur.current_retargeting)
    &&& (!(spec_any_vrma_child(nodes0, trigger, upto) && spec_in_subtree(
        nodes0,
        trigger as int,
        n,
    ) && nodes0[n].retarget_source) ==> cur.current_retargeting
        == nodes0[n].current_retargeting)
    &&& cur == (Node {
        animation_player: cur.animation_player,
        current_retargeting: cur.current_retargeting,
        ..nodes0[n]
    })
}

/// Handles a stop request addressed to a model rig.
///
/// Runs only when `trigger` is a model rig root. Every animation rig directly
/// under it stops, and once any is found, every retarget-source node under the
/// model rig root loses its "currently retargeting" mark.
#[verifier::rlimit(100)]
pub fn observe_stop_animation(world: &mut SceneWorld, trigger: usize, _event: &StopVrma)
    requires
        old(world).wf(),
        trigger < old(world).nodes@.len(),
    ensures
        final(world).wf(),
        final(world).nodes@.len() == old(world).nodes@.len(),
        !old(world).nodes@[trigger as int].vrm ==> final(world).nodes@ == old(world).nodes@,
        old(world).nodes@[trigger as int].vrm ==> forall|n: int|
            0 <= n < old(world).nodes@.len() ==> spec_observe_stop_state(
                old(world).nodes@,
                trigger,
                old(world).nodes@.len() as int,
                #[trigger] final(world).nodes@[n],
                n,
            ),
{
    if !world.nodes[trigger].vrm {
        return ;
    }
    let ghost nodes0 = world.nodes@;
    let total = world.nodes.len();
    let mut c: usize = 0;
    while c < total
        invariant
            world.wf(),
            world.nodes@.len() == nodes0.len(),
            trigger < nodes0.len(),
            total == nodes0.len(),
            c <= total,
            forall|n: int|
                0 <= n < nodes0.len() ==> spec_observe_stop_state(
                    nodes0,
                    trigger,
                    c as int,
                    #[trigger] world.nodes@[n],
                    n,
                ),
        decreases total - c,
    {
        let ghost ci = c as int;
        let ghost upto = c as int + 1;
        let is_child = match world.nodes[c].parent {
            Some(p) => p == trigger,
            None => false,
        };
        if is_child && world.nodes[c].vrma {
            proof {
                assert(spec_vrma_child(nodes0, trigger, ci));
            }
            let ghost mid0 = world.nodes@;
            VrmaPlayer::stop(world, VrmaEntity(c));
            let ghost mid1 = world.nodes@;
            proof {
                assert(mid0[ci].animation_player_entity_to
                    == nodes0[ci].animation_player_entity_to);
                assert(mid0[ci].animation_graph == nodes0[ci].animation_graph);
                if spec_player_ready(nodes0, ci) {
                    let pe = spec_player_node(nodes0, ci);
                    assert(spec_observe_stop_state(nodes0, trigger, ci, mid0[pe], pe));
                    match spec_observe_player_winner(nodes0, trigger, ci, pe) {
                        Some(w) => {
                            assert(mid0[pe].animation_player is Some);
                        },
                        None => {
                            assert(mid0[pe].animation_player == nodes0[pe].animation_player);
                        },
                    }
                    assert(spec_player_ready(mid0, ci));
                    assert(spec_player_node(mid0, ci) == pe);
                } else {
                    if spec_player_ready(mid0, ci) {
                        let pe = spec_player_node(mid0, ci);
                        assert(spec_player_node(nodes0, ci) == pe);
                        assert(spec_observe_stop_state(nodes0, trigger, ci, mid0[pe], pe));
                        lemma_observe_player_winner_some(nodes0, trigger, ci, pe);
                        match spec_observe_player_winner(nodes0, trigger, ci, pe) {
                            Some(w) => {
                                assert(nodes0[pe].animation_player is Some);
                            },
                            None => {
                                assert(mid0[pe].animation_player
                                    == nodes0[pe].animation_player);
                            },
                        }
                        assert(spec_player_ready(nodes0, ci));
                        assert(false);
                    }
                }
            }
            set_retargeting_in_subtree(world, trigger, false);
            proof {
                assert forall|m: int| 0 <= m < nodes0.len() implies (#[trigger] mid1[m]).name@
                    == nodes0[m].name@ && mid1[m].parent == nodes0[m].parent by {
                    assert(spec_observe_stop_state(nodes0, trigger, ci, mid0[m], m));
                }
                assert forall|n: int| 0 <= n < nodes0.len() implies spec_observe_stop_state(
                    nodes0,
                    trigger,
                    upto,
                    #[trigger] world.nodes@[n],
                    n,
                ) by {
                    lemma_in_subtree_same_shape(mid1, nodes0, trigger as int, n);
                    assert(spec_observe_stop_state(nodes0, trigger, ci, mid0[n], n));
                    assert(spec_any_vrma_child(nodes0, trigger, upto));
                    if spec_player_ready(nodes0, ci) && spec_player_node(nodes0, ci) == n {
                        assert(spec_observe_player_winner(nodes0, trigger, upto, n) == Some(ci));
                        assert(world.nodes@[n].animation_player == mid1[n].animation_player);
                    } else {
                        assert(spec_observe_player_winner(nodes0, trigger, upto, n)
                            == spec_observe_player_winner(nodes0, trigger, ci, n));
                        if !spec_player_ready(nodes0, ci) {
                            assert(mid1[n] == mid0[n]);
                        } else {
                            assert(mid1[n].animation_player == mid0[n].animation_player);
                        }
                    }
                }
            }
        } else {
            proof {
                assert(!spec_vrma_child(nodes0, trigger, ci));
                assert forall|n: int| 0 <= n < nodes0.len() implies spec_observe_stop_state(
                    nodes0,
                    trigger,
                    upto,
                    #[trigger] world.nodes@[n],
                    n,
                ) by {
                    assert(spec_observe_stop_state(nodes0, trigger, ci, world.nodes@[n], n));
                    assert(spec_observe_player_winner(nodes0, trigger, upto, n)
                        == spec_observe_player_winner(nodes0, trigger, ci, n));
                    if spec_any_vrma_child(nodes0, trigger, upto) {
                        let cw = choose|cw: int|
                            0 <= cw < upto && #[trigger] spec_vrma_child(nodes0, trigger, cw);
                        assert(spec_any_vrma_child(nodes0, trigger, ci));
                    }
                }
            }
        }
        c = c + 1;
    }
}

} // verus!
