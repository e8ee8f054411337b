//! Retargeting: building the bone correspondence from an animation rig to its
//! model rig, and copying corrected poses onto the model every frame.

use vstd::prelude::*;
use crate::SCALE;
use crate::math::{
    div_trunc_i128, lemma_div_trunc_bound, spec_div_trunc, Quat, Transform, Vec3,
};
use crate::vrm::{AttachmentGates, Rig, VrmBone};
use crate::world::{
    resolve_bone_against, spec_bone_view, spec_resolve_bone, Node, SceneWorld,
};

verus! {

/// A diagnostic from correspondence building: the target rig `target` has no
/// node carrying the bone identifier `bone`.
#[derive(Debug, PartialEq, Eq)]
pub struct MissingRetargetBone {
    pub target: String,
    pub bone: VrmBone,
}

// ---------------------------------------------------------------------------
// The translation correction for the root bone.
// ---------------------------------------------------------------------------

/// The height ratio between the two skeletons: the target's rest height over
/// the source's, in fixed-point units (only the vertical component is used, a
/// single-axis approximation kept as designed).
pub open spec fn spec_calc_scaling(dist_rest_global_pos: Vec3, source_rest_global_pos: Vec3) -> int {
    spec_div_trunc(dist_rest_global_pos.y * SCALE, source_rest_global_pos.y as int)
}

/// One component of the corrected hips position:
/// `rest + delta * scaling / SCALE`, with truncating division.
pub open spec fn spec_hips_component(rest_c: int, delta_c: int, scaling: int) -> int {
    rest_c + spec_div_trunc(delta_c * scaling, SCALE as int)
}

/// The corrected hips position as a vector.
pub open spec fn spec_hips_vec(
    source_rest_global_pos: Vec3,
    source_pose_pos: Vec3,
    dist_rest_global_pos: Vec3,
) -> Vec3 {
    let s = spec_calc_scaling(dist_rest_global_pos, source_rest_global_pos);
    Vec3 {
        x: spec_hips_component(
            dist_rest_global_pos.x as int,
            source_pose_pos.x - source_rest_global_pos.x,
            s,
        ) as i64,
        y: spec_hips_component(
            dist_rest_global_pos.y as int,
            source_pose_pos.y - source_rest_global_pos.y,
            s,
        ) as i64,
        z: spec_hips_component(
            dist_rest_global_pos.z as int,
            source_pose_pos.z - source_rest_global_pos.z,
            s,
        ) as i64,
    }
}

/// The skeleton height ratio, as the original computes it from the two rest
/// positions' vertical components.
pub fn calc_scaling(dist_rest_global_pos: Vec3, source_rest_global_pos: Vec3) -> (r: i64)
    requires
        dist_rest_global_pos.spec_in_range(),
        source_rest_global_pos.spec_in_range(),
        source_rest_global_pos.y != 0,
    ensures
        r == spec_calc_scaling(dist_rest_global_pos, source_rest_global_pos),
{
    proof {
        assert(-1_000_000_000_000 <= dist_rest_global_pos.y as int * SCALE as int
            <= 1_000_000_000_000) by (nonlinear_arith)
            requires
                -1_000_000_000 <= dist_rest_global_pos.y <= 1_000_000_000,
                SCALE == 1000,
        ;
    }
    let wide: i128 = (dist_rest_global_pos.y as i128) * (SCALE as i128);
    let q = div_trunc_i128(wide, source_rest_global_pos.y as i128);
    proof {
        lemma_div_trunc_bound(wide as int, source_rest_global_pos.y as int, 1_000_000_000_000);
    }
    q as i64
}

/// The pose offset of the source's root from its rest position.
pub fn calc_delta(source_pose_pos: Vec3, source_rest_global_pos: Vec3) -> (r: Vec3)
    requires
        source_pose_pos.spec_in_range(),
        source_rest_global_pos.spec_in_range(),
    ensures
        r.x == source_pose_pos.x - source_rest_global_pos.x,
        r.y == source_pose_pos.y - source_rest_global_pos.y,
        r.z == source_pose_pos.z - source_rest_global_pos.z,
{
    source_pose_pos.minus(&source_rest_global_pos)
}

/// Truncating division keeps the quotient within `m` when the numerator is
/// within `m` times the (positive) divisor.
proof fn lemma_div_trunc_scaled_bound(a: int, b: int, m: int)
    requires
        b > 0,
        0 <= m,
        -(m * b) <= a <= m * b,
    ensures
        -m <= spec_div_trunc(a, b) <= m,
{
    let q = vstd::math::abs(a) as int / vstd::math::abs(b) as int;
    assert(vstd::math::abs(a) <= m * b) by {
        if a >= 0 {
            assert(vstd::math::abs(a) == a);
        } else {
            assert(vstd::math::abs(a) == -a);
        }
    }
    assert(q <= m) by (nonlinear_arith)
        requires
            q == vstd::math::abs(a) as int / b,
            b > 0,
            0 <= m,
            vstd::math::abs(a) <= m * b,
    ;
    assert(q >= 0) by (nonlinear_arith)
        requires
            q == vstd::math::abs(a) as int / b,
            b > 0,
            vstd::math::abs(a) >= 0,
    ;
}

/// One component of the corrected hips position, computed wide and brought
/// back to a machine integer.
fn hips_component(rest_c: i64, delta_c: i64, scaling: i64) -> (r: i64)
    requires
        -1_000_000_000 <= rest_c <= 1_000_000_000,
        -2_000_000_000 <= delta_c <= 2_000_000_000,
        -1_000_000_000_000 <= scaling <= 1_000_000_000_000,
    ensures
        r == spec_hips_component(rest_c as int, delta_c as int, scaling as int),
{
    proof {
        assert(-2_000_000_000_000_000_000_000 <= delta_c as int * scaling as int
            <= 2_000_000_000_000_000_000_000) by (nonlinear_arith)
            requires
                -2_000_000_000 <= delta_c <= 2_000_000_000,
                -1_000_000_000_000 <= scaling <= 1_000_000_000_000,
        ;
    }
    let wide: i128 = (delta_c as i128) * (scaling as i128);
    let q = div_trunc_i128(wide, SCALE as i128);
    proof {
        assert(2_000_000_000_000_000_000 * (SCALE as int) == 2_000_000_000_000_000_000_000)
            by (nonlinear_arith)
            requires
                SCALE == 1000,
        ;
        lemma_div_trunc_scaled_bound(wide as int, SCALE as int, 2_000_000_000_000_000_000);
    }
    rest_c + (q as i64)
}

/// The corrected position of the target's hips: the target's rest position
/// plus the source's pose offset, scaled by the skeletons' height ratio.
pub fn calc_hips_position(
    source_rest_global_pos: Vec3,
    source_pose_pos: Vec3,
    dist_rest_global_pos: Vec3,
) -> (r: Vec3)
    requires
        source_rest_global_pos.spec_in_range(),
        source_pose_pos.spec_in_range(),
        dist_rest_global_pos.spec_in_range(),
        source_rest_global_pos.y != 0,
    ensures
        r == spec_hips_vec(source_rest_global_pos, source_pose_pos, dist_rest_global_pos),
        r.x == spec_hips_component(
            dist_rest_global_pos.x as int,
            source_pose_pos.x - source_rest_global_pos.x,
            spec_calc_scaling(dist_rest_global_pos, source_rest_global_pos),
        ),
        r.y == spec_hips_component(
            dist_rest_global_pos.y as int,
            source_pose_pos.y - source_rest_global_pos.y,
            spec_calc_scaling(dist_rest_global_pos, source_rest_global_pos),
        ),
        r.z == spec_hips_component(
            dist_rest_global_pos.z as int,
            source_pose_pos.z - source_rest_global_pos.z,
            spec_calc_scaling(dist_rest_global_pos, source_rest_global_pos),
        ),
{
    let delta = calc_delta(source_pose_pos, source_rest_global_pos);
    let scaling = calc_scaling(dist_rest_global_pos, source_rest_global_pos);
    proof {
        lemma_div_trunc_bound(
            dist_rest_global_pos.y as int * SCALE as int,
            source_rest_global_pos.y as int,
            1_000_000_000_000,
        );
        assert(-1_000_000_000_000 <= dist_rest_global_pos.y as int * SCALE as int
            <= 1_000_000_000_000) by (nonlinear_arith)
            requires
                -1_000_000_000 <= dist_rest_global_pos.y <= 1_000_000_000,
                SCALE == 1000,
        ;
    }
    Vec3 {
        x: hips_component(dist_rest_global_pos.x, delta.x, scaling),
        y: hips_component(dist_rest_global_pos.y, delta.y, scaling),
        z: hips_component(dist_rest_global_pos.z, delta.z, scaling),
    }
}


// ---------------------------------------------------------------------------
// The correspondence stage.
// ---------------------------------------------------------------------------

/// Registry entry `k` links source node `i`: the entry's bone identifier is
/// tagged on node `i` under the source root, and some node under the target's
/// hips carries the same identifier.
pub open spec fn spec_link_entry(
    nodes0: Seq<Node>,
    sroot: int,
    hips: int,
    reg: Seq<(VrmBone, String)>,
    k: int,
    i: int,
) -> bool {
    &&& 0 <= k < reg.len()
    &&& spec_resolve_bone(nodes0, sroot, reg[k].0@) == Some(i)
    &&& spec_resolve_bone(nodes0, hips, reg[k].0@) is Some
}

/// The target node entry `k` links to.
pub open spec fn spec_link_target(
    nodes0: Seq<Node>,
    hips: int,
    reg: Seq<(VrmBone, String)>,
    k: int,
) -> Option<int> {
    spec_resolve_bone(nodes0, hips, reg[k].0@)
}

/// The last entry among the first `upto` that links source node `i`.
pub open spec fn spec_link_winner(
    nodes0: Seq<Node>,
    sroot: int,
    hips: int,
    reg: Seq<(VrmBone, String)>,
    upto: int,
    i: int,
) -> Option<int>
    decreases upto,
{
    if upto <= 0 {
        None
    } else if spec_link_entry(nodes0, sroot, hips, reg, upto - 1, i) {
        Some(upto - 1)
    } else {
        spec_link_winner(nodes0, sroot, hips, reg, upto - 1, i)
    }
}

/// No winning entry means no entry links the node.
pub proof fn lemma_link_winner_none(
    nodes0: Seq<Node>,
    sroot: int,
    hips: int,
    reg: Seq<(VrmBone, String)>,
    upto: int,
    i: int,
)
    ensures
        (spec_link_winner(nodes0, sroot, hips, reg, upto, i) is None) == (forall|k: int|
            0 <= k < upto ==> !spec_link_entry(nodes0, sroot, hips, reg, k, i)),
    decreases upto,
{
    if upto > 0 {
        lemma_link_winner_none(nodes0, sroot, hips, reg, upto - 1, i);
    }
}

/// Node `cur` (at index `i`) is what the correspondence stage leaves behind
/// after the first `upto` entries: linked nodes are marked as retarget sources
/// and point at their target, everything else is untouched.
pub open spec fn spec_retarget_node_state(
    nodes0: Seq<Node>,
    sroot: int,
    hips: int,
    reg: Seq<(VrmBone, String)>,
    upto: int,
    cur: Node,
    i: int,
) -> bool {
    match spec_link_winner(nodes0, sroot, hips, reg, upto, i) {
        Some(k) => {
            &&& cur.retarget_bone_to matches Some(t) && spec_link_target(nodes0, hips, reg, k)
                == Some(t as int)
            &&& cur == (Node {
                retarget_source: true,
                retarget_bone_to: cur.retarget_bone_to,
                ..nodes0[i]
            })
        },
        None => cur == nodes0[i],
    }
}

/// The bone identifiers (in registry order) that resolve in the source but
/// have no counterpart under the target's hips: the non-fatal diagnostics.
pub open spec fn spec_missing_bones(
    nodes0: Seq<Node>,
    sroot: int,
    hips: int,
    reg: Seq<(VrmBone, String)>,
    upto: int,
) -> Seq<Seq<char>>
    decreases upto,
{
    if upto <= 0 {
        Seq::empty()
    } else {
        let rest = spec_missing_bones(nodes0, sroot, hips, reg, upto - 1);
        if spec_resolve_bone(nodes0, sroot, reg[upto - 1].0@) is Some && spec_resolve_bone(
            nodes0,
            hips,
            reg[upto - 1].0@,
        ) is None {
            rest.push(reg[upto - 1].0@)
        } else {
            rest
        }
    }
}

/// The recorded hips node of a rig, as an index (or -1 when absent).
pub open spec fn spec_hips_index(r: Rig) -> int {
    match r.hips_bone_to {
        Some(h) => h.0 as int,
        None => -1,
    }
}

/// Whether the correspondence stage runs: the source rig points at the target
/// rig, its bones are attached, and it has not been retargeted yet.
pub open spec fn spec_retarget_ready(source: Rig, target: Rig) -> bool {
    &&& source.retarget_to == Some(target.root)
    &&& source.gates.humanoid_bones_attached
    &&& !source.gates.retargeted_human_bones
}

/// The correspondence stage for one source rig and its target rig.
///
/// Runs only when the source points at the target, has its bones attached and
/// is not yet retargeted; if the target has no recorded hips back-reference
/// the source is skipped (and revisited later, its gate left unset). For each
/// registry identifier that resolves to a source bone: if a node under the
/// target's hips carries the same identifier, the source bone is marked as a
/// retarget source and linked to it; otherwise a diagnostic naming the target
/// rig and the identifier is emitted and the stage continues. Afterwards the
/// rig's flag is set unconditionally.
pub fn retarget_bones_to_vrm(world: &mut SceneWorld, source: &mut Rig, target: &Rig) -> (diags: Vec<
    MissingRetargetBone,
>)
    requires
        old(world).wf(),
        old(source).root < old(world).nodes@.len(),
        target.root < old(world).nodes@.len(),
        target.hips_bone_to matches Some(h) ==> h.0 < old(world).nodes@.len(),
    ensures
        final(world).wf(),
        final(world).nodes@.len() == old(world).nodes@.len(),
        (!spec_retarget_ready(*old(source), *target) || target.hips_bone_to is None) ==> {
            &&& final(world).nodes@ == old(world).nodes@
            &&& *final(source) == *old(source)
            &&& diags@.len() == 0
        },
        target.hips_bone_to is Some && spec_retarget_ready(*old(source), *target) ==> {
            let nodes0 = old(world).nodes@;
            let sroot = old(source).root as int;
            let hips = spec_hips_index(*target);
            let reg = old(source).bones.0@;
            &&& forall|i: int|
                0 <= i < nodes0.len() ==> spec_retarget_node_state(
                    nodes0,
                    sroot,
                    hips,
                    reg,
                    reg.len() as int,
                    #[trigger] final(world).nodes@[i],
                    i,
                )
            &&& *final(source) == (Rig {
                gates: AttachmentGates { retargeted_human_bones: true, ..old(source).gates },
                ..*old(source)
            })
            &&& diags@.len() == spec_missing_bones(nodes0, sroot, hips, reg, reg.len() as int).len()
            &&& forall|j: int|
                0 <= j < diags@.len() ==> (#[trigger] diags@[j]).bone@ == spec_missing_bones(
                    nodes0,
                    sroot,
                    hips,
                    reg,
                    reg.len() as int,
                )[j] && diags@[j].target@ == nodes0[target.root as int].name@
        },
{
    let ready = match source.retarget_to {
        Some(r) => r == target.root,
        None => false,
    };
    if !ready || !source.gates.humanoid_bones_attached || source.gates.retargeted_human_bones {
        return Vec::new();
    }
    let hips_node = match target.hips_bone_to {
        Some(h) => h.0,
        None => {
            return Vec::new();
        },
    };
    let ghost nodes0 = world.nodes@;
    let ghost sroot = source.root as int;
    let ghost hips = hips_node as int;
    let ghost reg = source.bones.0@;
    let n = source.bones.0.len();
    let mut diags: Vec<MissingRetargetBone> = Vec::new();
    let mut k: usize = 0;
    while k < n
        invariant
            world.wf(),
            world.nodes@.len() == nodes0.len(),
            source.root < nodes0.len(),
            target.root < nodes0.len(),
            hips_node < nodes0.len(),
            sroot == source.root as int,
            hips == hips_node as int,
            reg == source.bones.0@,
            n == reg.len(),
            k <= n,
            *source == *old(source),
            forall|i: int|
                0 <= i < nodes0.len() ==> spec_retarget_node_state(
                    nodes0,
                    sroot,
                    hips,
                    reg,
                    k as int,
                    #[trigger] world.nodes@[i],
                    i,
                ),
            diags@.len() == spec_missing_bones(nodes0, sroot, hips, reg, k as int).len(),
            forall|j: int|
                0 <= j < diags@.len() ==> (#[trigger] diags@[j]).bone@ == spec_missing_bones(
                    nodes0,
                    sroot,
                    hips,
                    reg,
                    k as int,
                )[j] && diags@[j].target@ == nodes0[target.root as int].name@,
        decreases n - k,
    {
        proof {
            assert forall|i: int| 0 <= i < nodes0.len() implies (#[trigger] world.nodes@[i]).name@
                == nodes0[i].name@ && world.nodes@[i].parent == nodes0[i].parent && spec_bone_view(
                world.nodes@[i],
            ) == spec_bone_view(nodes0[i]) by {
                assert(spec_retarget_node_state(
                    nodes0,
                    sroot,
                    hips,
                    reg,
                    k as int,
                    world.nodes@[i],
                    i,
                ));
            }
        }
        let ghost ki = k as int;
        let ghost upto = k as int + 1;
        let src_found = resolve_bone_against(world, source.root, &source.bones.0[k].0, Ghost(nodes0));
        match src_found {
            Some(src_bone) => {
                let dist_found = resolve_bone_against(
                    world,
                    hips_node,
                    &source.bones.0[k].0,
                    Ghost(nodes0),
                );
                match dist_found {
                    Some(dist_bone) => {
                        let nd = &mut world.nodes[src_bone];
                        nd.retarget_source = true;
                        nd.retarget_bone_to = Some(dist_bone);
                        proof {
                            assert(spec_link_entry(nodes0, sroot, hips, reg, ki, src_bone as int));
                            assert forall|j: int| 0 <= j < nodes0.len() implies
                                spec_retarget_node_state(
                                nodes0,
                                sroot,
                                hips,
                                reg,
                                upto,
                                #[trigger] world.nodes@[j],
                                j,
                            ) by {
                                if j == src_bone as int {
                                    assert(spec_link_winner(nodes0, sroot, hips, reg, upto, j)
                                        == Some(ki));
                                } else {
                                    assert(!spec_link_entry(nodes0, sroot, hips, reg, ki, j));
                                    assert(spec_link_winner(nodes0, sroot, hips, reg, upto, j)
                                        == spec_link_winner(nodes0, sroot, hips, reg, ki, j));
                                }
                            }
                            assert(spec_missing_bones(nodes0, sroot, hips, reg, upto)
                                == spec_missing_bones(nodes0, sroot, hips, reg, ki));
                        }
                    },
                    None => {
                        let bone = source.bones.0[k].0.clone();
                        let target_name = world.nodes[target.root].name.clone();
                        diags.push(MissingRetargetBone { target: target_name, bone });
                        proof {
                            assert forall|j: int| 0 <= j < nodes0.len() implies
                                spec_retarget_node_state(
                                nodes0,
                                sroot,
                                hips,
                                reg,
                                upto,
                                #[trigger] world.nodes@[j],
                                j,
                            ) by {
                                assert(!spec_link_entry(nodes0, sroot, hips, reg, ki, j));
                                assert(spec_link_winner(nodes0, sroot, hips, reg, upto, j)
                                    == spec_link_winner(nodes0, sroot, hips, reg, ki, j));
                            }
                            assert(spec_missing_bones(nodes0, sroot, hips, reg, upto)
                                == spec_missing_bones(nodes0, sroot, hips, reg, ki).push(
                                reg[ki].0@,
                            ));
                        }
                    },
                }
            },
            None => {
                proof {
                    assert forall|j: int| 0 <= j < nodes0.len() implies spec_retarget_node_state(
                        nodes0,
                        sroot,
                        hips,
                        reg,
                        upto,
                        #[trigger] world.nodes@[j],
                        j,
                    ) by {
                        assert(!spec_link_entry(nodes0, sroot, hips, reg, ki, j));
                        assert(spec_link_winner(nodes0, sroot, hips, reg, upto, j)
                            == spec_link_winner(nodes0, sroot, hips, reg, ki, j));
                    }
                    assert(spec_missing_bones(nodes0, sroot, hips, reg, upto) == spec_missing_bones(
                        nodes0,
                        sroot,
                        hips,
                        reg,
                        ki,
                    ));
                }
            },
        }
        k = k + 1;
    }
    source.gates.retargeted_human_bones = true;
    diags
}


// ---------------------------------------------------------------------------
// The pose-binding stage.
// ---------------------------------------------------------------------------

/// Whether source node `i` is bound this pass: it carries a retarget link, its
/// local transform changed since it was last processed, playback is driving it,
/// and both sides have a captured world rest pose.
pub open spec fn spec_bind_eligible(nodes0: Seq<Node>, i: int) -> bool {
    &&& 0 <= i < nodes0.len()
    &&& nodes0[i].transform_changed
    &&& nodes0[i].current_retargeting
    &&& nodes0[i].rest_global_transform is Some
    &&& match nodes0[i].retarget_bone_to {
        Some(t) => t < nodes0.len() && nodes0[t as int].rest_global_transform is Some,
        None => false,
    }
}

/// The node that source `i`'s link points at (or -1 without a link).
pub open spec fn spec_bind_target(nodes0: Seq<Node>, i: int) -> int {
    match nodes0[i].retarget_bone_to {
        Some(t) => t as int,
        None => -1,
    }
}

/// The transform the pass writes onto source `i`'s target: the source's
/// rotation copied verbatim; for the hips the corrected position (or, with a
/// degenerate zero rest height, the target's own translation as the documented
/// fallback), for every other bone the target's own translation; and the
/// target's own scale.
pub open spec fn spec_bound_transform(nodes0: Seq<Node>, i: int) -> Transform
    recommends
        spec_bind_eligible(nodes0, i),
{
    let t = spec_bind_target(nodes0, i);
    let src = nodes0[i];
    let dst = nodes0[t];
    let src_rest = match src.rest_global_transform {
        Some(r) => r.0,
        None => src.global_transform,
    };
    let dst_rest = match dst.rest_global_transform {
        Some(r) => r.0,
        None => dst.global_transform,
    };
    Transform {
        translation: if src.hips {
            if src_rest.translation.y != 0 {
                spec_hips_vec(
                    src_rest.translation,
                    src.global_transform.translation,
                    dst_rest.translation,
                )
            } else {
                dst.transform.translation
            }
        } else {
            dst.transform.translation
        },
        rotation: src.transform.rotation,
        scale: dst.transform.scale,
    }
}

/// The last source among the first `upto` whose write lands on node `n`.
pub open spec fn spec_bind_winner(nodes0: Seq<Node>, upto: int, n: int) -> Option<int>
    decreases upto,
{
    if upto <= 0 {
        None
    } else if spec_bind_eligible(nodes0, upto - 1) && spec_bind_target(nodes0, upto - 1) == n {
        Some(upto - 1)
    } else {
        spec_bind_winner(nodes0, upto - 1, n)
    }
}

/// No winner means no bound source targets the node.
pub proof fn lemma_bind_winner_none(nodes0: Seq<Node>, upto: int, n: int)
    ensures
        (spec_bind_winner(nodes0, upto, n) is None) == (forall|i: int|
            0 <= i < upto ==> !(spec_bind_eligible(nodes0, i) && spec_bind_target(nodes0, i) == n)),
    decreases upto,
{
    if upto > 0 {
        lemma_bind_winner_none(nodes0, upto - 1, n);
    }
}

/// A node after the pass has read it: a bound source's change marker is
/// consumed, everything else is untouched.
pub open spec fn spec_after_bind_reads(nodes0: Seq<Node>, n: int) -> Node {
    Node {
        transform_changed: if spec_bind_eligible(nodes0, n) {
            false
        } else {
            nodes0[n].transform_changed
        },
        ..nodes0[n]
    }
}

/// Node `cur` (at index `n`) is what the pose-binding pass leaves behind: the
/// last bound source targeting it wrote its transform and marked it changed,
/// or nothing targeted it and only its own change marker may have been
/// consumed.
pub open spec fn spec_bind_node_state(nodes0: Seq<Node>, cur: Node, n: int) -> bool {
    match spec_bind_winner(nodes0, nodes0.len() as int, n) {
        Some(i) => cur == (Node {
            transform: spec_bound_transform(nodes0, i),
            transform_changed: true,
            ..nodes0[n]
        }),
        None => cur == spec_after_bind_reads(nodes0, n),
    }
}

/// The writes the pass issues, in source order, as (target, transform) pairs.
pub open spec fn spec_bind_writes(nodes0: Seq<Node>, upto: int) -> Seq<(usize, Transform)>
    decreases upto,
{
    if upto <= 0 {
        Seq::empty()
    } else {
        let rest = spec_bind_writes(nodes0, upto - 1);
        if spec_bind_eligible(nodes0, upto - 1) {
            rest.push(
                ((spec_bind_target(nodes0, upto - 1) as usize), spec_bound_transform(
                    nodes0,
                    upto - 1,
                )),
            )
        } else {
            rest
        }
    }
}

/// The last write in a list that lands on node `n`, if any.
pub open spec fn spec_write_last(writes: Seq<(usize, Transform)>, n: int) -> Option<Transform>
    decreases writes.len(),
{
    if writes.len() == 0 {
        None
    } else if writes.last().0 == n {
        Some(writes.last().1)
    } else {
        spec_write_last(writes.drop_last(), n)
    }
}

/// The last write landing on `n` is the winning source's transform.
pub proof fn lemma_bind_writes_last(nodes0: Seq<Node>, upto: int, n: int)
    ensures
        match spec_bind_winner(nodes0, upto, n) {
            Some(i) => spec_write_last(spec_bind_writes(nodes0, upto), n) == Some(
                spec_bound_transform(nodes0, i),
            ),
            None => spec_write_last(spec_bind_writes(nodes0, upto), n) is None,
        },
    decreases upto,
{
    if upto > 0 {
        lemma_bind_writes_last(nodes0, upto - 1, n);
        let rest = spec_bind_writes(nodes0, upto - 1);
        if spec_bind_eligible(nodes0, upto - 1) {
            let entry = (
                (spec_bind_target(nodes0, upto - 1) as usize),
                spec_bound_transform(nodes0, upto - 1),
            );
            assert(rest.push(entry).drop_last() =~= rest);
            assert(rest.push(entry).last() == entry);
        }
    }
}

/// The pose-binding pass.
///
/// Runs over every source node carrying a retarget link whose local transform
/// changed and which playback is driving, and writes the corrected transform
/// onto its target: rotation copied from the source, the hips position
/// corrected by the skeletons' height ratio, every other bone kept at the
/// target's own translation, and the target's scale kept. Reads all happen
/// against the state the pass began with; writes land afterwards, the last
/// writer winning, and each written target is marked changed.
pub fn bind_bone_rotations(world: &mut SceneWorld)
    requires
        old(world).wf(),
    ensures
        final(world).wf(),
        final(world).nodes@.len() == old(world).nodes@.len(),
        forall|n: int|
            0 <= n < old(world).nodes@.len() ==> spec_bind_node_state(
                old(world).nodes@,
                #[trigger] final(world).nodes@[n],
                n,
            ),
{
    let ghost nodes0 = world.nodes@;
    let total = world.nodes.len();
    let mut writes: Vec<(usize, Transform)> = Vec::new();
    let mut i: usize = 0;
    while i < total
        invariant
            world.wf(),
            world.nodes@.len() == nodes0.len(),
            total == nodes0.len(),
            i <= total,
            forall|n: int|
                0 <= n < nodes0.len() ==> #[trigger] world.nodes@[n] == (Node {
                    transform_changed: if spec_bind_eligible(nodes0, n) && n < i {
                        false
                    } else {
                        nodes0[n].transform_changed
                    },
                    ..nodes0[n]
                }),
            writes@ == spec_bind_writes(nodes0, i as int),
            forall|q: int| 0 <= q < writes@.len() ==> (#[trigger] writes@[q]).0 < nodes0.len(),
        decreases total - i,
    {
        let ghost ii = i as int;
        proof {
            assert(world.nodes@[ii] == (Node {
                transform_changed: nodes0[ii].transform_changed,
                ..nodes0[ii]
            }));
        }
        let changed = world.nodes[i].transform_changed;
        let retargeting = world.nodes[i].current_retargeting;
        let src_rest_opt: Option<Transform> = match &world.nodes[i].rest_global_transform {
            Some(b) => Some(b.0),
            None => None,
        };
        let link: Option<usize> = world.nodes[i].retarget_bone_to;
        let mut handled = false;
        if changed && retargeting {
            match (src_rest_opt, link) {
                (Some(src_rest), Some(t)) => {
                    proof {
                        assert(t < nodes0.len());
                        assert(world.nodes@[t as int] == (Node {
                            transform_changed: world.nodes@[t as int].transform_changed,
                            ..nodes0[t as int]
                        }));
                    }
                    let dst_rest_opt: Option<Transform> = match &world.nodes[t]
                        .rest_global_transform {
                        Some(b) => Some(b.0),
                        None => None,
                    };
                    match dst_rest_opt {
                        Some(dst_rest) => {
                            proof {
                                assert(spec_bind_eligible(nodes0, ii));
                                assert(spec_bind_target(nodes0, ii) == t as int);
                            }
                            let src_tf = world.nodes[i].transform;
                            let src_global = world.nodes[i].global_transform;
                            let dst_tf = world.nodes[t].transform;
                            let is_hips = world.nodes[i].hips;
                            let translation = if is_hips {
                                if src_rest.translation.y != 0 {
                                    calc_hips_position(
                                        src_rest.translation,
                                        src_global.translation,
                                        dst_rest.translation,
                                    )
                                } else {
                                    dst_tf.translation
                                }
                            } else {
                                dst_tf.translation
                            };
                            let tf = Transform {
                                translation,
                                rotation: src_tf.rotation,
                                scale: dst_tf.scale,
                            };
                            proof {
                                assert(tf == spec_bound_transform(nodes0, ii));
                            }
                            writes.push((t, tf));
                            let nd = &mut world.nodes[i];
                            nd.transform_changed = false;
                            handled = true;
                            proof {
                                assert(writes@ =~= spec_bind_writes(nodes0, ii + 1));
                            }
                        },
                        None => {
                            proof {
                                assert(!spec_bind_eligible(nodes0, ii));
                            }
                        },
                    }
                },
                _ => {
                    proof {
                        assert(!spec_bind_eligible(nodes0, ii));
                    }
                },
            }
        } else {
            proof {
                assert(!spec_bind_eligible(nodes0, ii));
            }
        }
        proof {
            if !handled {
                assert(spec_bind_writes(nodes0, ii + 1) == spec_bind_writes(nodes0, ii));
            }
        }
        i = i + 1;
    }
    let writes_total = writes.len();
    let ghost full_writes = writes@;
    proof {
        assert(full_writes == spec_bind_writes(nodes0, nodes0.len() as int));
    }
    let mut w: usize = 0;
    while w < writes_total
        invariant
            world.wf(),
            world.nodes@.len() == nodes0.len(),
            writes_total == full_writes.len(),
            writes@ == full_writes,
            w <= writes_total,
            forall|q: int| 0 <= q < full_writes.len() ==> (#[trigger] full_writes[q]).0 < nodes0.len(),
            forall|n: int|
                0 <= n < nodes0.len() ==> #[trigger] world.nodes@[n] == (
                match spec_write_last(full_writes.subrange(0, w as int), n) {
                    Some(tf) => Node {
                        transform: tf,
                        transform_changed: true,
                        ..spec_after_bind_reads(nodes0, n)
                    },
                    None => spec_after_bind_reads(nodes0, n),
                }),
        decreases writes_total - w,
    {
        let target = writes[w].0;
        let tf = writes[w].1;
        let nd = &mut world.nodes[target];
        nd.transform = tf;
        nd.transform_changed = true;
        proof {
            assert(full_writes.subrange(0, w as int + 1).drop_last() =~= full_writes.subrange(
                0,
                w as int,
            ));
            assert(full_writes.subrange(0, w as int + 1).last() == full_writes[w as int]);
            assert forall|n: int| 0 <= n < nodes0.len() implies #[trigger] world.nodes@[n] == (
            match spec_write_last(full_writes.subrange(0, w as int + 1), n) {
                Some(tf2) => Node {
                    transform: tf2,
                    transform_changed: true,
                    ..spec_after_bind_reads(nodes0, n)
                },
                None => spec_after_bind_reads(nodes0, n),
            }) by {
                if n != target as int {
                    assert(spec_write_last(full_writes.subrange(0, w as int + 1), n)
                        == spec_write_last(full_writes.subrange(0, w as int), n));
                }
            }
        }
        w = w + 1;
    }
    proof {
        assert(full_writes.subrange(0, full_writes.len() as int) =~= full_writes);
        assert forall|n: int| 0 <= n < nodes0.len() implies spec_bind_node_state(
            nodes0,
            #[trigger] world.nodes@[n],
            n,
        ) by {
            lemma_bind_writes_last(nodes0, nodes0.len() as int, n);
        }
    }
}

/// If bound source `i` targets node `n` and no other bound source does, `i`
/// is the node's one writer.
pub proof fn lemma_bind_winner_last(nodes0: Seq<Node>, upto: int, i: int, n: int)
    requires
        0 <= i < upto <= nodes0.len(),
        spec_bind_eligible(nodes0, i),
        spec_bind_target(nodes0, i) == n,
        forall|i2: int|
            i < i2 < upto ==> !(spec_bind_eligible(nodes0, i2) && spec_bind_target(nodes0, i2)
                == n),
    ensures
        spec_bind_winner(nodes0, upto, n) == Some(i),
    decreases upto,
{
    if upto - 1 > i {
        lemma_bind_winner_last(nodes0, upto - 1, i, n);
    }
}

/// With a sole writer, the pose-binding pass leaves its target exactly the
/// written transform; in particular a non-hips source never changes the
/// target's translation or scale, whatever its own pose, only the rotation.
pub proof fn lemma_bind_sole_writer(nodes0: Seq<Node>, i: int, cur: Node)
    requires
        spec_bind_eligible(nodes0, i),
        forall|i2: int|
            0 <= i2 < nodes0.len() && i2 != i ==> !(spec_bind_eligible(nodes0, i2)
                && spec_bind_target(nodes0, i2) == spec_bind_target(nodes0, i)),
        spec_bind_node_state(nodes0, cur, spec_bind_target(nodes0, i)),
    ensures
        cur.transform == spec_bound_transform(nodes0, i),
        !nodes0[i].hips ==> cur.transform.translation == nodes0[spec_bind_target(
            nodes0,
            i,
        )].transform.translation && cur.transform.scale == nodes0[spec_bind_target(
            nodes0,
            i,
        )].transform.scale,
        cur.transform.rotation == nodes0[i].transform.rotation,
    {
    lemma_bind_winner_last(nodes0, nodes0.len() as int, i, spec_bind_target(nodes0, i));
}

/// A node that no link-bearing, playback-driven source targets is never
/// written by the pose-binding pass: its transform survives any number of
/// source pose changes. In particular a source bone without a retarget link
/// moves nothing.
pub proof fn lemma_bind_only_linked_targets_move(nodes0: Seq<Node>, n: int)
    requires
        forall|i: int|
            0 <= i < nodes0.len() ==> !(spec_bind_eligible(nodes0, i) && spec_bind_target(
                nodes0,
                i,
            ) == n),
    ensures
        spec_bind_winner(nodes0, nodes0.len() as int, n) is None,
        forall|cur: Node|
            spec_bind_node_state(nodes0, cur, n) ==> cur.transform == nodes0[n].transform,
{
    lemma_bind_winner_none(nodes0, nodes0.len() as int, n);
}

/// While retargeting is active, a non-hips bone never changes its target's
/// translation: whatever the source's pose, the write keeps the target's own
/// translation and scale, and only the rotation comes from the source.
pub proof fn lemma_bind_non_hips_keeps_translation(nodes0: Seq<Node>, i: int)
    requires
        spec_bind_eligible(nodes0, i),
        !nodes0[i].hips,
    ensures
        spec_bound_transform(nodes0, i).translation == nodes0[spec_bind_target(
            nodes0,
            i,
        )].transform.translation,
        spec_bound_transform(nodes0, i).scale == nodes0[spec_bind_target(
            nodes0,
            i,
        )].transform.scale,
        spec_bound_transform(nodes0, i).rotation == nodes0[i].transform.rotation,
{
}

} // verus!
