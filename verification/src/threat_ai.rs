//! Threat behaviour: the phase state machine of an inbound threat.
//!
//! The decision of which phase a threat is in depends only on its archetype,
//! its current phase, how far it is from its target, how long it has been in
//! the phase and whether it is engaged. The library decides the phase and
//! names the velocity rule to apply; the kinematics of each rule (turning
//! toward the target, climbing, jinking) are floating-point work done by the
//! caller.
//!
//! Ranges are whole meters rounded up and phase times whole seconds rounded
//! down. All thresholds are whole numbers, and for a whole number `t` a range
//! `x` satisfies `x <= t` exactly when its ceiling does, and a time `s`
//! satisfies `s >= t` exactly when its floor does, so the decisions are those
//! made on the unrounded values.

use vstd::prelude::*;

use crate::constants::{
    THREAT_IMPACT_RANGE_M, THREAT_POPUP_DURATION_SECS, THREAT_POPUP_RANGE_M,
    THREAT_TERMINAL_RANGE_M,
};
use crate::enums::{ThreatArchetype, ThreatPhase};

verus! {

/// The phase-relevant part of an archetype's behaviour profile.
#[derive(Debug, Clone, Copy, PartialEq, Eq, Structural)]
pub struct PhaseProfile {
    /// Range at which sea-skimmers begin pop-up (m), `None` for others.
    pub popup_range_m: Option<u64>,
    /// Range at which the threat turns terminal (m); 0 for none.
    pub terminal_range_m: u64,
    /// Whether this archetype can perform evasive maneuvers when engaged.
    pub can_evade: bool,
    /// Whether the terminal phase includes a dive (e.g., ballistic).
    pub terminal_dive: bool,
}

/// Phase profile of each archetype.
pub open spec fn phase_profile_spec(a: ThreatArchetype) -> PhaseProfile {
    match a {
        ThreatArchetype::SeaSkimmerMk1 => PhaseProfile {
            popup_range_m: Some(THREAT_POPUP_RANGE_M),
            terminal_range_m: THREAT_TERMINAL_RANGE_M,
            can_evade: false,
            terminal_dive: false,
        },
        ThreatArchetype::SeaSkimmerMk2 => PhaseProfile {
            popup_range_m: Some(THREAT_POPUP_RANGE_M),
            terminal_range_m: THREAT_TERMINAL_RANGE_M,
            can_evade: true,
            terminal_dive: false,
        },
        ThreatArchetype::SupersonicCruiser => PhaseProfile {
            popup_range_m: None,
            terminal_range_m: THREAT_TERMINAL_RANGE_M,
            can_evade: false,
            terminal_dive: false,
        },
        ThreatArchetype::SubsonicDrone => PhaseProfile {
            popup_range_m: None,
            terminal_range_m: 0,
            can_evade: false,
            terminal_dive: false,
        },
        ThreatArchetype::TacticalBallistic => PhaseProfile {
            popup_range_m: None,
            terminal_range_m: THREAT_TERMINAL_RANGE_M,
            can_evade: false,
            terminal_dive: true,
        },
    }
}

/// Get the phase profile for a given archetype.
pub fn phase_profile(archetype: ThreatArchetype) -> (p: PhaseProfile)
    ensures
        p == phase_profile_spec(archetype),
{
    match archetype {
        ThreatArchetype::SeaSkimmerMk1 => PhaseProfile {
            popup_range_m: Some(THREAT_POPUP_RANGE_M),
            terminal_range_m: THREAT_TERMINAL_RANGE_M,
            can_evade: false,
            terminal_dive: false,
        },
        ThreatArchetype::SeaSkimmerMk2 => PhaseProfile {
            popup_range_m: Some(THREAT_POPUP_RANGE_M),
            terminal_range_m: THREAT_TERMINAL_RANGE_M,
            can_evade: true,
            terminal_dive: false,
        },
        ThreatArchetype::SupersonicCruiser => PhaseProfile {
            popup_range_m: None,
            terminal_range_m: THREAT_TERMINAL_RANGE_M,
            can_evade: false,
            terminal_dive: false,
        },
        ThreatArchetype::SubsonicDrone => PhaseProfile {
            popup_range_m: None,
            terminal_range_m: 0,
            can_evade: false,
            terminal_dive: false,
        },
        ThreatArchetype::TacticalBallistic => PhaseProfile {
            popup_range_m: None,
            terminal_range_m: THREAT_TERMINAL_RANGE_M,
            can_evade: false,
            terminal_dive: true,
        },
    }
}

/// Velocity rule that goes with a phase decision.
#[derive(Debug, Clone, Copy, PartialEq, Eq, Structural)]
pub enum VelocityRule {
    /// Keep the current velocity.
    Keep,
    /// Keep the horizontal heading and speed, climb to the pop-up altitude.
    PopUpClimb,
    /// Speed up and head for the target, diving if the profile says so.
    TerminalRun,
    /// Head for the target with a lateral jink.
    EvasiveJink,
    /// Stop (the threat has reached its target).
    Halt,
}

/// Outcome of one evaluation of the threat state machine.
#[derive(Debug, Clone, Copy, PartialEq, Eq, Structural)]
pub struct PhaseDecision {
    pub new_phase: ThreatPhase,
    pub phase_changed: bool,
    pub velocity: VelocityRule,
}

/// Situation of one threat as the state machine sees it.
#[derive(Debug, Clone, Copy, PartialEq, Eq, Structural)]
pub struct ThreatSituation {
    pub archetype: ThreatArchetype,
    pub phase: ThreatPhase,
    /// Horizontal range to the target in whole meters, rounded up.
    pub range_m: u64,
    /// Time in the current phase in whole seconds, rounded down.
    pub elapsed_secs: u64,
    /// Whether the threat has an active engagement against it.
    pub is_engaged: bool,
}

pub open spec fn stay(phase: ThreatPhase) -> PhaseDecision {
    PhaseDecision { new_phase: phase, phase_changed: false, velocity: VelocityRule::Keep }
}

pub open spec fn move_to(phase: ThreatPhase, v: VelocityRule) -> PhaseDecision {
    PhaseDecision { new_phase: phase, phase_changed: true, velocity: v }
}

/// The threat state machine.
pub open spec fn evaluate_spec(s: ThreatSituation) -> PhaseDecision {
    let p = phase_profile_spec(s.archetype);
    match s.phase {
        ThreatPhase::Cruise => if p.popup_range_m matches Some(pr) && s.range_m <= pr {
            move_to(ThreatPhase::PopUp, VelocityRule::PopUpClimb)
        } else if p.terminal_range_m > 0 && s.range_m <= p.terminal_range_m {
            move_to(ThreatPhase::Terminal, VelocityRule::TerminalRun)
        } else if s.range_m <= THREAT_IMPACT_RANGE_M {
            move_to(ThreatPhase::Impact, VelocityRule::Halt)
        } else {
            stay(s.phase)
        },
        ThreatPhase::PopUp => if s.elapsed_secs >= THREAT_POPUP_DURATION_SECS {
            move_to(ThreatPhase::Terminal, VelocityRule::TerminalRun)
        } else {
            stay(s.phase)
        },
        ThreatPhase::Terminal => if s.range_m <= THREAT_IMPACT_RANGE_M {
            move_to(ThreatPhase::Impact, VelocityRule::Halt)
        } else if p.can_evade && s.is_engaged {
            move_to(ThreatPhase::Evasive, VelocityRule::EvasiveJink)
        } else {
            stay(s.phase)
        },
        ThreatPhase::Evasive => if s.range_m <= THREAT_IMPACT_RANGE_M {
            move_to(ThreatPhase::Impact, VelocityRule::Halt)
        } else {
            stay(s.phase)
        },
        ThreatPhase::Destroyed | ThreatPhase::Impact => stay(s.phase),
    }
}

/// Evaluate the state machine for one threat.
pub fn evaluate_phase(s: ThreatSituation) -> (d: PhaseDecision)
    ensures
        d == evaluate_spec(s),
{
    let p = phase_profile(s.archetype);
    let stay = PhaseDecision { new_phase: s.phase, phase_changed: false, velocity: VelocityRule::Keep };
    match s.phase {
        ThreatPhase::Cruise => {
            if let Some(popup_range) = p.popup_range_m {
                if s.range_m <= popup_range {
                    return PhaseDecision {
                        new_phase: ThreatPhase::PopUp,
                        phase_changed: true,
                        velocity: VelocityRule::PopUpClimb,
                    };
                }
            }
            if p.terminal_range_m > 0 && s.range_m <= p.terminal_range_m {
                return PhaseDecision {
                    new_phase: ThreatPhase::Terminal,
                    phase_changed: true,
                    velocity: VelocityRule::TerminalRun,
                };
            }
            if s.range_m <= THREAT_IMPACT_RANGE_M {
                return PhaseDecision {
                    new_phase: ThreatPhase::Impact,
                    phase_changed: true,
                    velocity: VelocityRule::Halt,
                };
            }
            stay
        },
        ThreatPhase::PopUp => {
            if s.elapsed_secs >= THREAT_POPUP_DURATION_SECS {
                PhaseDecision {
                    new_phase: ThreatPhase::Terminal,
                    phase_changed: true,
                    velocity: VelocityRule::TerminalRun,
                }
            } else {
                stay
            }
        },
        ThreatPhase::Terminal => {
            if s.range_m <= THREAT_IMPACT_RANGE_M {
                PhaseDecision {
                    new_phase: ThreatPhase::Impact,
                    phase_changed: true,
                    velocity: VelocityRule::Halt,
                }
            } else if p.can_evade && s.is_engaged {
                PhaseDecision {
                    new_phase: ThreatPhase::Evasive,
                    phase_changed: true,
                    velocity: VelocityRule::EvasiveJink,
                }
            } else {
                stay
            }
        },
        ThreatPhase::Evasive => {
            if s.range_m <= THREAT_IMPACT_RANGE_M {
                PhaseDecision {
                    new_phase: ThreatPhase::Impact,
                    phase_changed: true,
                    velocity: VelocityRule::Halt,
                }
            } else {
                stay
            }
        },
        ThreatPhase::Destroyed | ThreatPhase::Impact => stay,
    }
}

// ---------------------------------------------------------------------------
// Laws
// ---------------------------------------------------------------------------

/// Position of a phase along the attack run.
pub open spec fn phase_rank(p: ThreatPhase) -> int {
    match p {
        ThreatPhase::Cruise => 0,
        ThreatPhase::PopUp => 1,
        ThreatPhase::Terminal => 2,
        ThreatPhase::Evasive => 3,
        ThreatPhase::Impact => 4,
        ThreatPhase::Destroyed => 5,
    }
}

/// Destroyed and Impact are final: the state machine never leaves them.
pub proof fn lemma_final_phases_are_absorbing(s: ThreatSituation)
    requires
        s.phase == ThreatPhase::Destroyed || s.phase == ThreatPhase::Impact,
    ensures
        evaluate_spec(s) == stay(s.phase),
{
}

/// A threat never goes back along its attack run, reports a change exactly
/// when its phase changes, and never destroys itself.
pub proof fn lemma_phases_only_advance(s: ThreatSituation)
    ensures
        phase_rank(evaluate_spec(s).new_phase) >= phase_rank(s.phase),
        evaluate_spec(s).phase_changed == (evaluate_spec(s).new_phase != s.phase),
        s.phase != ThreatPhase::Destroyed ==> evaluate_spec(s).new_phase
            != ThreatPhase::Destroyed,
{
}

/// A threat reaches Impact only within impact range of its target, and it
/// halts exactly when it impacts.
pub proof fn lemma_impact_only_at_target(s: ThreatSituation)
    ensures
        (evaluate_spec(s).phase_changed && evaluate_spec(s).new_phase == ThreatPhase::Impact)
            ==> s.range_m <= THREAT_IMPACT_RANGE_M,
        (evaluate_spec(s).velocity == VelocityRule::Halt) == (evaluate_spec(s).phase_changed
            && evaluate_spec(s).new_phase == ThreatPhase::Impact),
{
}

/// Only an archetype that can evade, and only while engaged, goes evasive.
pub proof fn lemma_evasion_needs_engagement(s: ThreatSituation)
    ensures
        evaluate_spec(s).new_phase == ThreatPhase::Evasive && s.phase != ThreatPhase::Evasive
            ==> s.is_engaged && phase_profile_spec(s.archetype).can_evade,
{
}


/// Only the SeaSkimmerMk2 can evade: every other archetype never enters the
/// Evasive phase, while a SeaSkimmerMk2 in its terminal run that is engaged
/// and still outside impact range turns evasive.
pub proof fn lemma_only_mk2_evades(s: ThreatSituation)
    ensures
        phase_profile_spec(s.archetype).can_evade == (s.archetype
            == ThreatArchetype::SeaSkimmerMk2),
        s.archetype != ThreatArchetype::SeaSkimmerMk2 && s.phase != ThreatPhase::Evasive
            ==> evaluate_spec(s).new_phase != ThreatPhase::Evasive,
        s.archetype == ThreatArchetype::SeaSkimmerMk2 && s.phase == ThreatPhase::Terminal
            && s.is_engaged && s.range_m > THREAT_IMPACT_RANGE_M ==> {
            &&& evaluate_spec(s).new_phase == ThreatPhase::Evasive
            &&& evaluate_spec(s).phase_changed
            &&& evaluate_spec(s).velocity == VelocityRule::EvasiveJink
        },
{
}

} // verus!
