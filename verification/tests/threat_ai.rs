use deterrence::constants::{
    THREAT_IMPACT_RANGE_M, THREAT_POPUP_DURATION_SECS, THREAT_POPUP_RANGE_M,
    THREAT_TERMINAL_RANGE_M,
};
use deterrence::enums::{ThreatArchetype, ThreatPhase};
use deterrence::threat_ai::{evaluate_phase, phase_profile, ThreatSituation, VelocityRule};

fn situation(
    archetype: ThreatArchetype,
    phase: ThreatPhase,
    range_m: u64,
    is_engaged: bool,
    elapsed_secs: u64,
) -> ThreatSituation {
    ThreatSituation { archetype, phase, range_m, elapsed_secs, is_engaged }
}

#[test]
fn test_sea_skimmer_cruise_to_popup() {
    let d = evaluate_phase(situation(
        ThreatArchetype::SeaSkimmerMk1,
        ThreatPhase::Cruise,
        THREAT_POPUP_RANGE_M - 100,
        false,
        0,
    ));
    assert!(d.phase_changed);
    assert_eq!(d.new_phase, ThreatPhase::PopUp);
    // The pop-up climbs.
    assert_eq!(d.velocity, VelocityRule::PopUpClimb);
}

#[test]
fn test_sea_skimmer_no_popup_far_away() {
    let d = evaluate_phase(situation(
        ThreatArchetype::SeaSkimmerMk1,
        ThreatPhase::Cruise,
        100_000,
        false,
        0,
    ));
    assert!(!d.phase_changed);
    assert_eq!(d.new_phase, ThreatPhase::Cruise);
}

#[test]
fn test_sea_skimmer_popup_to_terminal() {
    // 3.1 s in the pop-up: whole seconds rounded down.
    let d = evaluate_phase(situation(
        ThreatArchetype::SeaSkimmerMk1,
        ThreatPhase::PopUp,
        40_000,
        false,
        THREAT_POPUP_DURATION_SECS,
    ));
    assert!(d.phase_changed);
    assert_eq!(d.new_phase, ThreatPhase::Terminal);
}

#[test]
fn test_sea_skimmer_popup_stays_during_maneuver() {
    let d = evaluate_phase(situation(
        ThreatArchetype::SeaSkimmerMk1,
        ThreatPhase::PopUp,
        45_000,
        false,
        1,
    ));
    assert!(!d.phase_changed);
    assert_eq!(d.new_phase, ThreatPhase::PopUp);
}

#[test]
fn test_sea_skimmer_terminal_to_impact() {
    let d = evaluate_phase(situation(
        ThreatArchetype::SeaSkimmerMk1,
        ThreatPhase::Terminal,
        THREAT_IMPACT_RANGE_M - 10,
        false,
        5,
    ));
    assert!(d.phase_changed);
    assert_eq!(d.new_phase, ThreatPhase::Impact);
    assert_eq!(d.velocity, VelocityRule::Halt);
}

#[test]
fn test_supersonic_cruise_to_terminal() {
    let d = evaluate_phase(situation(
        ThreatArchetype::SupersonicCruiser,
        ThreatPhase::Cruise,
        THREAT_TERMINAL_RANGE_M - 100,
        false,
        0,
    ));
    assert!(d.phase_changed);
    assert_eq!(d.new_phase, ThreatPhase::Terminal);
}

#[test]
fn test_ballistic_terminal_dive() {
    let d = evaluate_phase(situation(
        ThreatArchetype::TacticalBallistic,
        ThreatPhase::Cruise,
        THREAT_TERMINAL_RANGE_M - 100,
        false,
        0,
    ));
    assert!(d.phase_changed);
    assert_eq!(d.new_phase, ThreatPhase::Terminal);
    assert_eq!(d.velocity, VelocityRule::TerminalRun);
    assert!(phase_profile(ThreatArchetype::TacticalBallistic).terminal_dive, "Ballistic terminal should dive");
}

#[test]
fn test_mk2_evasive_when_engaged() {
    let d = evaluate_phase(situation(
        ThreatArchetype::SeaSkimmerMk2,
        ThreatPhase::Terminal,
        15_000,
        true,
        2,
    ));
    assert!(d.phase_changed);
    assert_eq!(d.new_phase, ThreatPhase::Evasive);
}

#[test]
fn test_mk1_no_evasion() {
    let d = evaluate_phase(situation(
        ThreatArchetype::SeaSkimmerMk1,
        ThreatPhase::Terminal,
        15_000,
        true,
        2,
    ));
    assert!(!d.phase_changed);
    assert_eq!(d.new_phase, ThreatPhase::Terminal);
}

#[test]
fn test_drone_stays_cruise_until_impact() {
    let d = evaluate_phase(situation(
        ThreatArchetype::SubsonicDrone,
        ThreatPhase::Cruise,
        5_000,
        false,
        0,
    ));
    assert!(!d.phase_changed);
    assert_eq!(d.new_phase, ThreatPhase::Cruise);
}

#[test]
fn test_drone_impact() {
    let d = evaluate_phase(situation(
        ThreatArchetype::SubsonicDrone,
        ThreatPhase::Cruise,
        THREAT_IMPACT_RANGE_M - 10,
        false,
        0,
    ));
    assert!(d.phase_changed);
    assert_eq!(d.new_phase, ThreatPhase::Impact);
}

#[test]
fn test_destroyed_no_transition() {
    let d = evaluate_phase(situation(
        ThreatArchetype::SeaSkimmerMk1,
        ThreatPhase::Destroyed,
        1000,
        false,
        0,
    ));
    assert!(!d.phase_changed);
    assert_eq!(d.new_phase, ThreatPhase::Destroyed);
}

#[test]
fn test_impact_no_transition() {
    let d = evaluate_phase(situation(
        ThreatArchetype::SupersonicCruiser,
        ThreatPhase::Impact,
        10,
        false,
        0,
    ));
    assert!(!d.phase_changed);
    assert_eq!(d.new_phase, ThreatPhase::Impact);
}

#[test]
fn evasive_threat_impacts_at_target() {
    let d = evaluate_phase(situation(
        ThreatArchetype::SeaSkimmerMk2,
        ThreatPhase::Evasive,
        THREAT_IMPACT_RANGE_M,
        true,
        0,
    ));
    assert_eq!(d.new_phase, ThreatPhase::Impact);
}

#[test]
fn popup_range_boundary_is_inclusive() {
    let at = evaluate_phase(situation(
        ThreatArchetype::SeaSkimmerMk1,
        ThreatPhase::Cruise,
        THREAT_POPUP_RANGE_M,
        false,
        0,
    ));
    assert_eq!(at.new_phase, ThreatPhase::PopUp);
    let beyond = evaluate_phase(situation(
        ThreatArchetype::SeaSkimmerMk1,
        ThreatPhase::Cruise,
        THREAT_POPUP_RANGE_M + 1,
        false,
        0,
    ));
    assert_eq!(beyond.new_phase, ThreatPhase::Cruise);
}
