use deterrence::constants::MAX_HISTORY_DOTS;
use deterrence::engine::{LifecycleCommand, MissionLifecycle};
use deterrence::enums::{GamePhase, MissilePhase, ScenarioId, WeaponType};
use deterrence::movement::{history_due, missile_step, record_history_dot};

#[test]
fn start_mission_phase_gating() {
    let mut l = MissionLifecycle::new();
    assert_eq!(l.phase, GamePhase::MainMenu);
    assert!(!l.advances_time());
    assert!(l.apply(LifecycleCommand::StartMission));
    assert_eq!(l.phase, GamePhase::Active);
    // Starting again while Active is ignored.
    assert!(!l.apply(LifecycleCommand::StartMission));
    assert_eq!(l.phase, GamePhase::Active);
}

#[test]
fn pause_resume_via_commands() {
    let mut l = MissionLifecycle::new();
    l.apply(LifecycleCommand::StartMission);
    l.apply(LifecycleCommand::Pause);
    assert_eq!(l.phase, GamePhase::Paused);
    assert!(!l.advances_time());
    l.apply(LifecycleCommand::Resume);
    assert_eq!(l.phase, GamePhase::Active);
    assert!(l.advances_time());
}

#[test]
fn select_scenario_before_start_only() {
    let mut l = MissionLifecycle::new();
    l.apply(LifecycleCommand::SelectScenario(ScenarioId::Hard));
    assert_eq!(l.scenario, ScenarioId::Hard);
    l.apply(LifecycleCommand::StartMission);
    l.apply(LifecycleCommand::SelectScenario(ScenarioId::Easy));
    assert_eq!(l.scenario, ScenarioId::Hard);
}

#[test]
fn mission_completes_and_returns_to_menu() {
    let mut l = MissionLifecycle::new();
    l.apply(LifecycleCommand::StartMission);
    assert!(!l.complete_if_resolved(false, 0));
    assert!(!l.complete_if_resolved(true, 2));
    assert!(l.complete_if_resolved(true, 0));
    assert_eq!(l.phase, GamePhase::MissionComplete);
    l.apply(LifecycleCommand::ReturnToMenu);
    assert_eq!(l.phase, GamePhase::MainMenu);
}

#[test]
fn history_dots_every_half_second() {
    assert!(!history_due(0));
    assert!(!history_due(14));
    assert!(history_due(15));
    assert!(history_due(30));
}

#[test]
fn history_keeps_newest_twelve() {
    let mut h: Vec<u32> = Vec::new();
    for i in 0..20u32 {
        record_history_dot(&mut h, i);
    }
    assert_eq!(h.len(), MAX_HISTORY_DOTS);
    assert_eq!(h[0], 19);
    assert_eq!(h[MAX_HISTORY_DOTS - 1], 8);
}

#[test]
fn missile_boost_to_midcourse_after_five_seconds() {
    let d = missile_step(MissilePhase::Boost, 100, 249, WeaponType::Standard, false, Some(50_000));
    assert_eq!(d.phase, MissilePhase::Boost);
    assert!(!d.guide);
    let d = missile_step(MissilePhase::Boost, 100, 250, WeaponType::Standard, false, Some(50_000));
    assert_eq!(d.phase, MissilePhase::Midcourse);
}

#[test]
fn terminal_needs_illuminator_unless_extended_range() {
    let d = missile_step(MissilePhase::Midcourse, 0, 10, WeaponType::Standard, false, Some(15_000));
    assert_eq!(d.phase, MissilePhase::Midcourse);
    assert!(d.guide);
    let d = missile_step(MissilePhase::Midcourse, 0, 10, WeaponType::Standard, true, Some(15_000));
    assert_eq!(d.phase, MissilePhase::Terminal);
    let d = missile_step(MissilePhase::Midcourse, 0, 10, WeaponType::ExtendedRange, false, Some(20_000));
    assert_eq!(d.phase, MissilePhase::Terminal);
    let d = missile_step(MissilePhase::Midcourse, 0, 10, WeaponType::ExtendedRange, false, None);
    assert_eq!(d.phase, MissilePhase::Midcourse);
    assert!(!d.guide);
}
