//! Movement bookkeeping: the position history kept for trail rendering and
//! the flight-phase rules of interceptor missiles.

use vstd::prelude::*;

use crate::constants::{
    HISTORY_DOT_INTERVAL, MAX_HISTORY_DOTS, MISSILE_BOOST_TICKS, TERMINAL_GUIDANCE_RANGE_M,
};
use crate::enums::{MissilePhase, WeaponType};
use crate::fire_control::{can_enter_terminal, elapsed_ticks};

verus! {

/// Whether a history dot is recorded on this tick: every
/// [`HISTORY_DOT_INTERVAL`] ticks, never on tick 0.
pub fn history_due(current_tick: u64) -> (b: bool)
    ensures
        b == (current_tick != 0 && current_tick % (HISTORY_DOT_INTERVAL as u64) == 0),
{
    current_tick != 0 && current_tick % (HISTORY_DOT_INTERVAL as u64) == 0
}

/// The history after recording `dot`: newest first, at most
/// [`MAX_HISTORY_DOTS`] dots.
pub open spec fn recorded_history<T>(history: Seq<T>, dot: T) -> Seq<T> {
    let h = seq![dot] + history;
    if h.len() > MAX_HISTORY_DOTS {
        h.subrange(0, MAX_HISTORY_DOTS as int)
    } else {
        h
    }
}

/// Record a position history dot: the newest goes first and the oldest
/// beyond [`MAX_HISTORY_DOTS`] are dropped.
pub fn record_history_dot<T>(history: &mut Vec<T>, dot: T)
    ensures
        final(history)@ == recorded_history(old(history)@, dot),
{
    history.insert(0, dot);
    assert(old(history)@.insert(0, dot) =~= seq![dot] + old(history)@);
    history.truncate(MAX_HISTORY_DOTS);
}

/// A history never holds more than [`MAX_HISTORY_DOTS`] dots once one has
/// been recorded, and the newest dot comes first.
pub proof fn lemma_history_bounded<T>(history: Seq<T>, dot: T)
    ensures
        recorded_history(history, dot).len() <= MAX_HISTORY_DOTS,
        recorded_history(history, dot)[0] == dot,
{
}

/// What the missile system decides for one interceptor on one tick.
#[derive(Debug, Clone, Copy, PartialEq, Eq, Structural)]
pub struct MissileDecision {
    /// The missile's phase after this tick.
    pub phase: MissilePhase,
    /// Whether the missile is steered toward its target this tick.
    pub guide: bool,
}

/// The flight-phase rule of an interceptor. `target_range_m` is the range to
/// its target in whole meters rounded up, when the target exists.
pub open spec fn missile_step_spec(
    phase: MissilePhase,
    phase_start_tick: u64,
    now: u64,
    weapon: WeaponType,
    has_illuminator: bool,
    target_range_m: Option<u64>,
) -> MissileDecision {
    match phase {
        MissilePhase::Boost => MissileDecision {
            phase: if elapsed_ticks(phase_start_tick, now) >= MISSILE_BOOST_TICKS {
                MissilePhase::Midcourse
            } else {
                MissilePhase::Boost
            },
            guide: false,
        },
        MissilePhase::Midcourse => match target_range_m {
            Some(r) => MissileDecision {
                phase: if r <= TERMINAL_GUIDANCE_RANGE_M && (weapon == WeaponType::ExtendedRange
                    || has_illuminator) {
                    MissilePhase::Terminal
                } else {
                    MissilePhase::Midcourse
                },
                guide: true,
            },
            None => MissileDecision { phase, guide: false },
        },
        MissilePhase::Terminal => MissileDecision { phase, guide: target_range_m.is_some() },
        MissilePhase::Complete => MissileDecision { phase, guide: false },
    }
}

/// Decide an interceptor's phase transition: boost ends after its set time;
/// a midcourse missile within terminal range goes terminal when it has an
/// active seeker (extended range) or an illuminator; midcourse and terminal
/// missiles are guided while their target exists.
pub fn missile_step(
    phase: MissilePhase,
    phase_start_tick: u64,
    current_tick: u64,
    weapon: WeaponType,
    has_illuminator: bool,
    target_range_m: Option<u64>,
) -> (d: MissileDecision)
    ensures
        d == missile_step_spec(
            phase,
            phase_start_tick,
            current_tick,
            weapon,
            has_illuminator,
            target_range_m,
        ),
{
    match phase {
        MissilePhase::Boost => {
            let done = current_tick.saturating_sub(phase_start_tick) >= MISSILE_BOOST_TICKS;
            MissileDecision {
                phase: if done {
                    MissilePhase::Midcourse
                } else {
                    MissilePhase::Boost
                },
                guide: false,
            }
        },
        MissilePhase::Midcourse => match target_range_m {
            Some(r) => {
                let terminal = r <= TERMINAL_GUIDANCE_RANGE_M && can_enter_terminal(
                    weapon,
                    has_illuminator,
                );
                MissileDecision {
                    phase: if terminal {
                        MissilePhase::Terminal
                    } else {
                        MissilePhase::Midcourse
                    },
                    guide: true,
                }
            },
            None => MissileDecision { phase, guide: false },
        },
        MissilePhase::Terminal => MissileDecision { phase, guide: target_range_m.is_some() },
        MissilePhase::Complete => MissileDecision { phase, guide: false },
    }
}

/// Flight phases only move forward: boost, midcourse, terminal, complete.
pub open spec fn missile_rank(p: MissilePhase) -> int {
    match p {
        MissilePhase::Boost => 0,
        MissilePhase::Midcourse => 1,
        MissilePhase::Terminal => 2,
        MissilePhase::Complete => 3,
    }
}

/// A missile's phase never goes back, and a semi-active missile without an
/// illuminator never enters terminal guidance from midcourse.
pub proof fn lemma_missile_phases_advance(
    phase: MissilePhase,
    start: u64,
    now: u64,
    weapon: WeaponType,
    has_illuminator: bool,
    target_range_m: Option<u64>,
)
    ensures
        missile_rank(missile_step_spec(phase, start, now, weapon, has_illuminator, target_range_m).phase)
            >= missile_rank(phase),
        phase == MissilePhase::Midcourse && weapon != WeaponType::ExtendedRange && !has_illuminator
            ==> missile_step_spec(phase, start, now, weapon, has_illuminator, target_range_m).phase
            == MissilePhase::Midcourse,
{
}

} // verus!
