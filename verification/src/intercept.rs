//! Intercept resolution: what happens to an engagement in terminal guidance
//! when its interceptor reaches the target, runs out of fuel, or loses its
//! target.

use vstd::prelude::*;

use crate::constants::INTERCEPT_LETHAL_RADIUS_M;
use crate::engagement::{Engagement, ScoreState};
use crate::enums::{EngagementPhase, InterceptResult};

verus! {

/// What the world shows of a terminal engagement this tick.
#[derive(Debug, Clone, Copy, PartialEq, Eq, Structural)]
pub struct InterceptObservation {
    /// Whether the interceptor still exists.
    pub interceptor_present: bool,
    /// Whether the target still exists.
    pub target_present: bool,
    /// Interceptor-to-target range in whole meters rounded up.
    pub range_m: u64,
    /// Whether the interceptor has burnt all its fuel this tick.
    pub fuel_exhausted: bool,
}

/// What an intercept step asks of the world.
#[derive(Debug, Clone, Copy, PartialEq, Eq, Structural)]
pub enum InterceptEvent {
    /// Nothing happens.
    Nothing,
    /// The engagement is aborted; the interceptor, if it still exists, must
    /// be removed.
    Aborted { remove_interceptor: bool },
    /// The interceptor detonated or fell: the result, and the interceptor
    /// must be removed. On a hit the target is destroyed.
    Splash(InterceptResult),
}

/// Whether a terminal engagement is checked for intercept: it is in terminal
/// guidance and has an interceptor.
pub open spec fn intercept_candidate(e: Engagement) -> bool {
    e.phase == EngagementPhase::Terminal && e.has_interceptor
}

/// Whether the interceptor is within lethal range of an existing target.
pub open spec fn lethal_spec(o: InterceptObservation) -> bool {
    o.interceptor_present && o.target_present && o.range_m <= INTERCEPT_LETHAL_RADIUS_M
}

/// Whether the kill roll is due: the engagement is checked and its
/// interceptor is within lethal range.
pub fn kill_roll_due(e: &Engagement, o: &InterceptObservation) -> (b: bool)
    ensures
        b == (intercept_candidate(*e) && lethal_spec(*o)),
{
    e.phase == EngagementPhase::Terminal && e.has_interceptor && o.interceptor_present
        && o.target_present && o.range_m <= INTERCEPT_LETHAL_RADIUS_M
}

/// The engagement after it completes with `r`.
pub open spec fn completed(e: Engagement, r: InterceptResult) -> Engagement {
    Engagement {
        result: Some(r),
        phase: EngagementPhase::Complete,
        has_interceptor: false,
        ..e
    }
}

/// One intercept step: the engagement afterwards and what it asks of the
/// world. `hit` is the outcome of the kill roll, consulted only when the
/// roll is due.
pub open spec fn intercept_spec(e: Engagement, o: InterceptObservation, hit: bool) -> (
    Engagement,
    InterceptEvent,
) {
    if !intercept_candidate(e) {
        (e, InterceptEvent::Nothing)
    } else if !o.interceptor_present {
        (
            Engagement { phase: EngagementPhase::Aborted, has_interceptor: false, ..e },
            InterceptEvent::Aborted { remove_interceptor: false },
        )
    } else if !o.target_present {
        (
            Engagement { phase: EngagementPhase::Aborted, has_interceptor: false, ..e },
            InterceptEvent::Aborted { remove_interceptor: true },
        )
    } else if o.range_m <= INTERCEPT_LETHAL_RADIUS_M {
        if hit {
            (completed(e, InterceptResult::Hit), InterceptEvent::Splash(InterceptResult::Hit))
        } else {
            (completed(e, InterceptResult::Miss), InterceptEvent::Splash(InterceptResult::Miss))
        }
    } else if o.fuel_exhausted {
        (completed(e, InterceptResult::Miss), InterceptEvent::Splash(InterceptResult::Miss))
    } else {
        (e, InterceptEvent::Nothing)
    }
}

/// Resolve an intercept for one engagement. A hit completes the engagement
/// and counts a kill; a miss, or an interceptor out of fuel, completes it as
/// a miss; a lost interceptor or target aborts it.
pub fn resolve_intercept(
    eng: &mut Engagement,
    score: &mut ScoreState,
    obs: InterceptObservation,
    hit: bool,
) -> (ev: InterceptEvent)
    requires
        intercept_spec(*old(eng), obs, hit).1 == InterceptEvent::Splash(InterceptResult::Hit)
            ==> old(score).threats_killed < u32::MAX,
    ensures
        (*final(eng), ev) == intercept_spec(*old(eng), obs, hit),
        *final(score) == (if ev == InterceptEvent::Splash(InterceptResult::Hit) {
            ScoreState { threats_killed: (old(score).threats_killed + 1) as u32, ..*old(score) }
        } else {
            *old(score)
        }),
{
    if !(eng.phase == EngagementPhase::Terminal && eng.has_interceptor) {
        return InterceptEvent::Nothing;
    }
    if !obs.interceptor_present {
        eng.phase = EngagementPhase::Aborted;
        eng.has_interceptor = false;
        return InterceptEvent::Aborted { remove_interceptor: false };
    }
    if !obs.target_present {
        eng.phase = EngagementPhase::Aborted;
        eng.has_interceptor = false;
        return InterceptEvent::Aborted { remove_interceptor: true };
    }
    if obs.range_m <= INTERCEPT_LETHAL_RADIUS_M {
        let r = if hit {
            InterceptResult::Hit
        } else {
            InterceptResult::Miss
        };
        eng.result = Some(r);
        eng.phase = EngagementPhase::Complete;
        eng.has_interceptor = false;
        if hit {
            score.threats_killed = score.threats_killed + 1;
        }
        return InterceptEvent::Splash(r);
    }
    if obs.fuel_exhausted {
        eng.result = Some(InterceptResult::Miss);
        eng.phase = EngagementPhase::Complete;
        eng.has_interceptor = false;
        return InterceptEvent::Splash(InterceptResult::Miss);
    }
    InterceptEvent::Nothing
}

/// Only a terminal engagement can end in an intercept, and an engagement
/// completes with a hit only when the kill roll succeeded within lethal range.
pub proof fn lemma_hits_need_terminal_and_lethal_range(
    e: Engagement,
    o: InterceptObservation,
    hit: bool,
)
    ensures
        intercept_spec(e, o, hit).1 != InterceptEvent::Nothing ==> e.phase == EngagementPhase::Terminal,
        intercept_spec(e, o, hit).1 == InterceptEvent::Splash(InterceptResult::Hit) ==> hit
            && lethal_spec(o),
        intercept_spec(e, o, hit).1 != InterceptEvent::Nothing ==> !intercept_spec(
            e,
            o,
            hit,
        ).0.has_interceptor,
{
}


/// Whenever the kill roll is due (a terminal engagement whose interceptor and
/// target both exist, within the lethal radius), the step settles the
/// engagement: it completes with the roll's outcome, a hit or a miss, and
/// its interceptor is removed. A failed roll is a miss, never a retry.
pub proof fn lemma_kill_roll_settles_engagement(e: Engagement, o: InterceptObservation, hit: bool)
    requires
        e.phase == EngagementPhase::Terminal,
        e.has_interceptor,
        o.interceptor_present,
        o.target_present,
        o.range_m <= INTERCEPT_LETHAL_RADIUS_M,
    ensures
        hit ==> intercept_spec(e, o, hit).1 == InterceptEvent::Splash(InterceptResult::Hit),
        !hit ==> intercept_spec(e, o, hit).1 == InterceptEvent::Splash(InterceptResult::Miss),
        intercept_spec(e, o, hit).0.phase == EngagementPhase::Complete,
        intercept_spec(e, o, hit).0.result == Some(
            if hit {
                InterceptResult::Hit
            } else {
                InterceptResult::Miss
            },
        ),
        !intercept_spec(e, o, hit).0.has_interceptor,
        intercept_spec(e, o, hit).0.id == e.id,
{
}

/// An engagement in terminal guidance whose interceptor runs out of fuel
/// outside the lethal radius, with both missiles still present, completes as
/// a miss and loses its interceptor.
pub proof fn lemma_fuel_exhaustion_is_a_miss(e: Engagement, o: InterceptObservation, hit: bool)
    requires
        e.phase == EngagementPhase::Terminal,
        e.has_interceptor,
        o.interceptor_present,
        o.target_present,
        o.range_m > INTERCEPT_LETHAL_RADIUS_M,
        o.fuel_exhausted,
    ensures
        intercept_spec(e, o, hit).1 == InterceptEvent::Splash(InterceptResult::Miss),
        intercept_spec(e, o, hit).0.phase == EngagementPhase::Complete,
        intercept_spec(e, o, hit).0.result == Some(InterceptResult::Miss),
        !intercept_spec(e, o, hit).0.has_interceptor,
{
}

} // verus!
