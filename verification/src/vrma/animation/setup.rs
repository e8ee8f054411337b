//! Associating a freshly spawned animation player with its rig: the nearest
//! ancestor holding an animation graph records the player node, and the player
//! node receives the graph's handle.

use vstd::prelude::*;
use crate::world::{Node, SceneWorld};

verus! {

/// The nearest ancestor of `e` (including `e` itself) that holds an animation
/// graph, if any.
pub open spec fn spec_graph_ancestor(nodes0: Seq<Node>, e: int) -> Option<int>
    decreases e,
{
    if 0 <= e < nodes0.len() {
        if nodes0[e].animation_graph is Some {
            Some(e)
        } else {
            match nodes0[e].parent {
                Some(p) => {
                    if p < e {
                        spec_graph_ancestor(nodes0, p as int)
                    } else {
                        None
                    }
                },
                None => None,
            }
        }
    } else {
        None
    }
}

/// The graph handle held by node `a` (or zero when it holds none).
pub open spec fn spec_graph_handle(nodes0: Seq<Node>, a: int) -> usize {
    match nodes0[a].animation_graph {
        Some(g) => g.handle,
        None => 0,
    }
}

/// Runs when an animation player has just spawned at `player_entity`: walks up
/// the hierarchy to the nearest node holding an animation graph; that node
/// records the player, and the player node receives the graph's handle. With
/// no such ancestor nothing happens.
pub fn setup_vrma_player(world: &mut SceneWorld, player_entity: usize)
    requires
        old(world).wf(),
        player_entity < old(world).nodes@.len(),
    ensures
        final(world).wf(),
        final(world).nodes@.len() == old(world).nodes@.len(),
        spec_graph_ancestor(old(world).nodes@, player_entity as int) is None ==> final(world).nodes@
            == old(world).nodes@,
        spec_graph_ancestor(old(world).nodes@, player_entity as int) matches Some(a) ==> {
            let nodes0 = old(world).nodes@;
            &&& forall|n: int|
                0 <= n < nodes0.len() && n != a && n != player_entity ==> final(world).nodes@[n]
                    == nodes0[n]
            &&& (a != player_entity ==> final(world).nodes@[a] == (Node {
                animation_player_entity_to: Some(player_entity),
                ..nodes0[a]
            }) && final(world).nodes@[player_entity as int] == (Node {
                graph_handle: Some(spec_graph_handle(nodes0, a)),
                ..nodes0[player_entity as int]
            }))
            &&& (a == player_entity ==> final(world).nodes@[a] == (Node {
                animation_player_entity_to: Some(player_entity),
                graph_handle: Some(spec_graph_handle(nodes0, a)),
                ..nodes0[a]
            }))
        },
{
    let ghost nodes0 = world.nodes@;
    let mut cur: usize = player_entity;
    loop
        invariant
            world.wf(),
            nodes0 == old(world).nodes@,
            world.nodes@ == nodes0,
            player_entity < nodes0.len(),
            cur < nodes0.len(),
            spec_graph_ancestor(nodes0, player_entity as int) == spec_graph_ancestor(
                nodes0,
                cur as int,
            ),
        decreases cur,
    {
        let handle_opt: Option<usize> = match &world.nodes[cur].animation_graph {
            Some(g) => Some(g.handle),
            None => None,
        };
        match handle_opt {
            Some(handle) => {
                proof {
                    assert(spec_graph_ancestor(nodes0, cur as int) == Some(cur as int));
                }
                let nd = &mut world.nodes[cur];
                nd.animation_player_entity_to = Some(player_entity);
                let pd = &mut world.nodes[player_entity];
                pd.graph_handle = Some(handle);
                return ;
            },
            None => {
                match world.nodes[cur].parent {
                    Some(p) => {
                        proof {
                            assert(p < cur);
                        }
                        cur = p;
                    },
                    None => {
                        return ;
                    },
                }
            },
        }
    }
}

} // verus!
