//! What an animation rig carries once spawned: its expression names and the
//! duration of its clips.

use vstd::prelude::*;
use crate::vrm::VrmExpression;
use crate::vrm::extensions::Humanoid;

verus! {

/// The expression block of an animation asset; only the preset names matter
/// here, the expression payloads stay with the external parser.
#[derive(Debug, Clone, PartialEq, Eq)]
pub struct VrmaExpressions {
    pub preset: Vec<String>,
}

/// The rig-animation extension block of an animation asset.
#[derive(Debug, Clone, PartialEq, Eq)]
pub struct VrmcVrmAnimation {
    pub expressions: Option<VrmaExpressions>,
    pub humanoid: Humanoid,
}

/// The parsed extensions of one animation asset.
#[derive(Debug, Clone, PartialEq, Eq)]
pub struct VrmaExtensions {
    pub vrmc_vrm_animation: VrmcVrmAnimation,
}

/// The expression preset names declared by an animation asset.
#[derive(Debug, PartialEq, Eq)]
pub struct VrmaExpressionNames(pub Vec<VrmExpression>);

impl VrmaExpressionNames {
    /// Collects the expression preset names of the asset, in declaration
    /// order; an asset without an expression block declares none.
    pub fn new(extensions: &VrmaExtensions) -> (r: Self)
        ensures
            match extensions.vrmc_vrm_animation.expressions {
                Some(e) => r.0@.len() == e.preset@.len() && (forall|j: int|
                    0 <= j < r.0@.len() ==> (#[trigger] r.0@[j])@ == e.preset@[j]@),
                None => r.0@.len() == 0,
            },
    {
        let expressions = match &extensions.vrmc_vrm_animation.expressions {
            Some(e) => e,
            None => {
                return Self(Vec::new());
            },
        };
        let mut out: Vec<VrmExpression> = Vec::new();
        let mut k: usize = 0;
        while k < expressions.preset.len()
            invariant
                k <= expressions.preset@.len(),
                out@.len() == k,
                forall|j: int|
                    0 <= j < k ==> (#[trigger] out@[j])@ == expressions.preset@[j]@,
            decreases expressions.preset@.len() - k,
        {
            out.push(VrmExpression(expressions.preset[k].clone()));
            k = k + 1;
        }
        Self(out)
    }
}

/// The longest clip duration, in fixed-point milliseconds; zero without clips.
pub open spec fn spec_max_duration(durations: Seq<u64>) -> u64
    decreases durations.len(),
{
    if durations.len() == 0 {
        0u64
    } else {
        let rest = spec_max_duration(durations.drop_last());
        if durations.last() > rest {
            durations.last()
        } else {
            rest
        }
    }
}

/// The duration of an animation rig: the longest of its clips' durations.
pub fn obtain_vrma_duration(durations: &Vec<u64>) -> (r: u64)
    ensures
        r == spec_max_duration(durations@),
{
    let mut best: u64 = 0;
    let mut k: usize = 0;
    while k < durations.len()
        invariant
            k <= durations@.len(),
            best == spec_max_duration(durations@.subrange(0, k as int)),
        decreases durations@.len() - k,
    {
        proof {
            assert(durations@.subrange(0, k as int + 1).drop_last() =~= durations@.subrange(
                0,
                k as int,
            ));
            assert(durations@.subrange(0, k as int + 1).last() == durations@[k as int]);
        }
        if durations[k] > best {
            best = durations[k];
        }
        k = k + 1;
    }
    proof {
        assert(durations@.subrange(0, durations@.len() as int) =~= durations@);
    }
    best
}

} // verus!
