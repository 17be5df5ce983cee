use deterrence::components::LauncherSystem;
use deterrence::constants::{VETO_CLOCK_TICKS, VLS_CELL_COUNT};
use deterrence::engagement::{Engagement, FlightObservation, ScoreState};
use deterrence::enums::{
    CellStatus, Classification, DoctrineMode, EngagementPhase, InterceptResult, MissilePhase,
    WeaponType,
};
use deterrence::fire_control::{
    advance_engagement, cleanup_completed_engagements, confirm_engagement, doctrine_permits,
    engaged_track_numbers,
    new_engagement, plan_new_engagements, retain_engagement, select_weapon_and_cell,
    veto_engagement, EngagementCandidate,
};
use deterrence::intercept::{kill_roll_due, resolve_intercept, InterceptEvent, InterceptObservation};
use deterrence::state::build_vls_view;
use deterrence::world_setup::build_default_vls_loadout;

fn launcher() -> LauncherSystem {
    LauncherSystem { cells: build_default_vls_loadout() }
}

fn quiet_obs() -> FlightObservation {
    FlightObservation {
        missile_phase: None,
        target_present: true,
        interceptor_range_m: None,
        tti_order: 0,
    }
}

fn hostile(track_number: u32, range_m: u64) -> EngagementCandidate {
    EngagementCandidate { track_number, classification: Classification::Hostile, firm: true, range_m }
}

#[test]
fn default_loadout_counts() {
    let cells = build_default_vls_loadout();
    assert_eq!(cells.len(), VLS_CELL_COUNT);
    let v = build_vls_view(&LauncherSystem { cells });
    assert_eq!(v.ready_standard, 32);
    assert_eq!(v.ready_extended_range, 16);
    assert_eq!(v.ready_point_defense, 16);
    assert_eq!(v.total_ready, 64);
    assert_eq!(v.total_capacity, 64);
}

#[test]
fn weapon_selection_by_range() {
    let l = launcher();
    assert_eq!(select_weapon_and_cell(&l, 150_000), Some((WeaponType::ExtendedRange, 32)));
    assert_eq!(select_weapon_and_cell(&l, 50_000), Some((WeaponType::Standard, 0)));
    assert_eq!(select_weapon_and_cell(&l, 20_000), Some((WeaponType::PointDefense, 48)));
    assert_eq!(select_weapon_and_cell(&l, 20_001), Some((WeaponType::Standard, 0)));
}

#[test]
fn weapon_selection_falls_back_and_runs_out() {
    let mut cells = vec![CellStatus::Expended; 4];
    cells[3] = CellStatus::Ready(WeaponType::PointDefense);
    let l = LauncherSystem { cells };
    assert_eq!(select_weapon_and_cell(&l, 150_000), Some((WeaponType::PointDefense, 3)));
    let empty = LauncherSystem { cells: vec![CellStatus::Expended; 4] };
    assert_eq!(select_weapon_and_cell(&empty, 150_000), None);
}

#[test]
fn doctrine_rules() {
    assert!(doctrine_permits(DoctrineMode::AutoSpecial, Classification::Hostile));
    assert!(!doctrine_permits(DoctrineMode::AutoSpecial, Classification::Suspect));
    assert!(doctrine_permits(DoctrineMode::AutoComposite, Classification::Suspect));
    assert!(!doctrine_permits(DoctrineMode::Manual, Classification::Hostile));
}

#[test]
fn plan_engages_hostile_track_once() {
    let mut l = launcher();
    let mut next_id = 0u32;
    let candidates = vec![hostile(7, 60_000), hostile(8, 10_000)];
    let planned =
        plan_new_engagements(&mut l, 0, &vec![8], &candidates, DoctrineMode::AutoSpecial, &mut next_id);
    assert_eq!(planned.len(), 1);
    assert_eq!(planned[0].track_number, 7);
    assert_eq!(planned[0].engagement_id, 0);
    assert_eq!(planned[0].weapon_type, WeaponType::Standard);
    assert_eq!(l.cells[planned[0].cell], CellStatus::Assigned(WeaponType::Standard));
    assert_eq!(next_id, 1);
}

#[test]
fn plan_nothing_in_manual_mode() {
    let mut l = launcher();
    let mut next_id = 5u32;
    let planned =
        plan_new_engagements(&mut l, 0, &vec![], &vec![hostile(1, 30_000)], DoctrineMode::Manual, &mut next_id);
    assert!(planned.is_empty());
    assert_eq!(next_id, 5);
}

#[test]
fn plan_respects_engagement_cap_and_track_quality() {
    let mut l = launcher();
    let mut next_id = 0u32;
    let mut weak = hostile(2, 30_000);
    weak.firm = false;
    let planned = plan_new_engagements(&mut l, 11, &vec![], &vec![weak, hostile(3, 30_000), hostile(4, 30_000)], DoctrineMode::AutoSpecial, &mut next_id);
    assert_eq!(planned.len(), 1);
    assert_eq!(planned[0].track_number, 3);
}

fn ready_engagement() -> Engagement {
    let mut l = launcher();
    let mut next_id = 0u32;
    let planned =
        plan_new_engagements(&mut l, 0, &vec![], &vec![hostile(9, 50_000)], DoctrineMode::AutoSpecial, &mut next_id);
    let mut e = new_engagement(&planned[0], 100);
    let mut score = ScoreState::default();
    let mut track = 50u32;
    let s = advance_engagement(&mut e, &mut l, &mut score, &mut track, quiet_obs(), 160);
    assert!(s.veto_clock_started);
    e
}

#[test]
fn solution_takes_two_seconds() {
    let mut l = launcher();
    let mut next_id = 0u32;
    let planned =
        plan_new_engagements(&mut l, 0, &vec![], &vec![hostile(9, 50_000)], DoctrineMode::AutoSpecial, &mut next_id);
    let mut e = new_engagement(&planned[0], 100);
    assert_eq!(e.phase, EngagementPhase::SolutionCalc);
    let mut score = ScoreState::default();
    let mut track = 0u32;
    let s = advance_engagement(&mut e, &mut l, &mut score, &mut track, quiet_obs(), 159);
    assert!(!s.veto_clock_started);
    assert_eq!(e.phase, EngagementPhase::SolutionCalc);
    let s = advance_engagement(&mut e, &mut l, &mut score, &mut track, quiet_obs(), 160);
    assert!(s.veto_clock_started);
    assert_eq!(e.phase, EngagementPhase::Ready);
    assert_eq!(e.veto_remaining_ticks, VETO_CLOCK_TICKS);
}

#[test]
fn veto_clock_warns_then_launches() {
    let mut e = ready_engagement();
    let mut l = LauncherSystem { cells: vec![CellStatus::Assigned(WeaponType::Standard); 64] };
    let mut score = ScoreState::default();
    let mut track = 50u32;
    let mut warn3 = None;
    let mut warn1 = None;
    let mut launch = None;
    for t in 1..=VETO_CLOCK_TICKS {
        let s = advance_engagement(&mut e, &mut l, &mut score, &mut track, quiet_obs(), 160 + t);
        if s.warning_3s {
            warn3 = Some(t);
        }
        if s.warning_1s {
            warn1 = Some(t);
        }
        if s.launched_track.is_some() {
            launch = Some(t);
            assert_eq!(s.launched_track, Some(50));
        }
    }
    assert_eq!(warn3, Some(150));
    assert_eq!(warn1, Some(210));
    assert_eq!(launch, Some(240));
    assert_eq!(e.phase, EngagementPhase::Launched);
    assert!(e.has_interceptor);
    assert_eq!(score.interceptors_fired, 1);
    assert_eq!(track, 51);
    assert_eq!(l.cells[e.assigned_cell.unwrap()], CellStatus::Expended);
}

#[test]
fn confirm_launches_on_next_step() {
    let mut e = ready_engagement();
    let mut l = launcher();
    let mut score = ScoreState::default();
    let mut track = 0u32;
    confirm_engagement(&mut e);
    assert_eq!(e.veto_remaining_ticks, 0);
    let s = advance_engagement(&mut e, &mut l, &mut score, &mut track, quiet_obs(), 200);
    assert_eq!(s.launched_track, Some(0));
    assert!(s.warning_3s && s.warning_1s);
    assert_eq!(e.phase, EngagementPhase::Launched);
}

#[test]
fn veto_aborts_and_returns_cell() {
    let mut l = launcher();
    let mut next_id = 0u32;
    let planned =
        plan_new_engagements(&mut l, 0, &vec![], &vec![hostile(9, 50_000)], DoctrineMode::AutoSpecial, &mut next_id);
    let cell = planned[0].cell;
    assert_eq!(l.cells[cell], CellStatus::Assigned(WeaponType::Standard));
    let mut e = new_engagement(&planned[0], 0);
    assert!(veto_engagement(&mut e, &mut l, 10));
    assert_eq!(e.phase, EngagementPhase::Aborted);
    assert_eq!(e.assigned_cell, None);
    assert_eq!(l.cells, build_default_vls_loadout());
    // A second veto has no effect.
    assert!(!veto_engagement(&mut e, &mut l, 11));
}

#[test]
fn in_flight_engagement_follows_missile_and_aborts_without_target() {
    let mut e = ready_engagement();
    let mut l = launcher();
    let mut score = ScoreState::default();
    let mut track = 0u32;
    confirm_engagement(&mut e);
    advance_engagement(&mut e, &mut l, &mut score, &mut track, quiet_obs(), 200);
    let mut obs = quiet_obs();
    obs.missile_phase = Some(MissilePhase::Midcourse);
    advance_engagement(&mut e, &mut l, &mut score, &mut track, obs, 201);
    assert_eq!(e.phase, EngagementPhase::Midcourse);
    assert_eq!(e.phase_start_tick, 201);
    obs.target_present = false;
    let s = advance_engagement(&mut e, &mut l, &mut score, &mut track, obs, 202);
    assert!(s.interceptor_removed);
    assert_eq!(e.phase, EngagementPhase::Aborted);
    assert!(!e.has_interceptor);
}

#[test]
fn finished_engagements_leave_after_assessment_delay() {
    assert!(retain_engagement(EngagementPhase::Complete, 100, 144));
    assert!(!retain_engagement(EngagementPhase::Complete, 100, 145));
    assert!(retain_engagement(EngagementPhase::Midcourse, 0, 1_000_000));
}

#[test]
fn engaged_tracks_skip_finished() {
    let mut e1 = ready_engagement();
    e1.target_track_number = 1;
    let mut e2 = e1;
    e2.target_track_number = 2;
    e2.phase = EngagementPhase::Aborted;
    let mut e3 = e1;
    e3.target_track_number = 3;
    assert_eq!(engaged_track_numbers(&vec![e1, e2, e3]), vec![1, 3]);
}

#[test]
fn intercept_hit_scores_kill() {
    let mut e = ready_engagement();
    e.phase = EngagementPhase::Terminal;
    e.has_interceptor = true;
    let mut score = ScoreState::default();
    let obs = InterceptObservation { interceptor_present: true, target_present: true, range_m: 15, fuel_exhausted: false };
    assert!(kill_roll_due(&e, &obs));
    let ev = resolve_intercept(&mut e, &mut score, obs, true);
    assert_eq!(ev, InterceptEvent::Splash(InterceptResult::Hit));
    assert_eq!(e.phase, EngagementPhase::Complete);
    assert_eq!(e.result, Some(InterceptResult::Hit));
    assert_eq!(score.threats_killed, 1);
}

#[test]
fn intercept_needs_terminal_phase_and_range() {
    let mut e = ready_engagement();
    e.phase = EngagementPhase::Midcourse;
    e.has_interceptor = true;
    let mut score = ScoreState::default();
    let near = InterceptObservation { interceptor_present: true, target_present: true, range_m: 5, fuel_exhausted: false };
    assert!(!kill_roll_due(&e, &near));
    assert_eq!(resolve_intercept(&mut e, &mut score, near, true), InterceptEvent::Nothing);
    e.phase = EngagementPhase::Terminal;
    let far = InterceptObservation { range_m: 21, ..near };
    assert_eq!(resolve_intercept(&mut e, &mut score, far, true), InterceptEvent::Nothing);
    let dry = InterceptObservation { fuel_exhausted: true, ..far };
    assert_eq!(resolve_intercept(&mut e, &mut score, dry, true), InterceptEvent::Splash(InterceptResult::Miss));
    assert_eq!(score.threats_killed, 0);
}

#[test]
fn intercept_aborts_without_target() {
    let mut e = ready_engagement();
    e.phase = EngagementPhase::Terminal;
    e.has_interceptor = true;
    let mut score = ScoreState::default();
    let obs = InterceptObservation { interceptor_present: true, target_present: false, range_m: 0, fuel_exhausted: false };
    assert_eq!(resolve_intercept(&mut e, &mut score, obs, true), InterceptEvent::Aborted { remove_interceptor: true });
    assert_eq!(e.phase, EngagementPhase::Aborted);
}

#[test]
fn score_assets_protected() {
    let mut s = ScoreState::default();
    assert!(s.assets_protected());
    s.threats_impacted = 1;
    assert!(!s.assets_protected());
}

#[test]
fn cleanup_drops_assessed_engagements_in_order() {
    let base = ready_engagement();
    let mut a = base;
    a.id = 1;
    a.phase = EngagementPhase::Complete;
    a.phase_start_tick = 0;
    let mut b = base;
    b.id = 2;
    let mut c = base;
    c.id = 3;
    c.phase = EngagementPhase::Aborted;
    c.phase_start_tick = 90;
    let mut engs = vec![a, b, c];
    cleanup_completed_engagements(&mut engs, 100);
    let ids: Vec<u32> = engs.iter().map(|e| e.id).collect();
    assert_eq!(ids, vec![2, 3]);
}
