use deterrence::constants::WAVE_INTERVAL_TICKS;
use deterrence::enums::{ScenarioId, ThreatArchetype};
use deterrence::scenario::{build_schedule, secs_to_ticks};
use deterrence::wave_spawner::{WaveEntry, WaveSchedule};

#[test]
fn test_scenario_easy_wave_count() {
    let (schedule, _theater) = build_schedule(ScenarioId::Easy);
    assert_eq!(schedule.waves.len(), 3, "Easy scenario should have 3 waves");
    assert_eq!(schedule.total_threats(), 8, "Easy scenario should have 8 total threats");
}

#[test]
fn test_scenario_medium_wave_count() {
    let (schedule, _theater) = build_schedule(ScenarioId::Medium);
    assert_eq!(schedule.waves.len(), 5, "Medium scenario should have 5 waves");
    let total = schedule.total_threats();
    assert_eq!(total, 12, "Medium scenario should have 12 total threats, got {total}");
}

#[test]
fn test_scenario_hard_wave_count() {
    let (schedule, _theater) = build_schedule(ScenarioId::Hard);
    assert_eq!(schedule.waves.len(), 7, "Hard scenario should have 7 waves");
    let total = schedule.total_threats();
    assert!(total >= 20, "Hard scenario should have 20+ threats, got {total}");
}

#[test]
fn test_all_spawned_flag() {
    let (mut schedule, _theater) = build_schedule(ScenarioId::Easy);
    assert!(!schedule.all_spawned(), "Should not be all spawned initially");

    for wave in &mut schedule.waves {
        wave.spawned = true;
    }
    assert!(schedule.all_spawned(), "Should be all spawned after marking all");
}

#[test]
fn test_scenario_theater_configs() {
    let (_schedule_easy, theater_easy) = build_schedule(ScenarioId::Easy);
    assert!(theater_easy.terrain_file.is_none(), "Easy should be open ocean");
    assert_eq!(theater_easy.name, "Training Area");

    let (_schedule_med, theater_med) = build_schedule(ScenarioId::Medium);
    assert!(theater_med.terrain_file.is_none(), "Medium should be open ocean");

    let (_schedule_hard, theater_hard) = build_schedule(ScenarioId::Hard);
    assert!(theater_hard.terrain_file.is_some(), "Hard should have terrain file path");
    assert_eq!(theater_hard.name, "Strait of Hormuz");
    let lat = f64::from_bits(theater_hard.center_lat_bits);
    let lon = f64::from_bits(theater_hard.center_lon_bits);
    assert!(lat > 25.0 && lat < 28.0);
    assert!(lon > 55.0 && lon < 58.0);
}

#[test]
fn easy_scenario_first_wave_at_start() {
    let (schedule, _) = build_schedule(ScenarioId::Easy);
    assert_eq!(schedule.waves[0].spawn_at_tick, 0);
    assert_eq!(schedule.waves[1].spawn_at_tick, secs_to_ticks(20));
    assert_eq!(secs_to_ticks(20), 600);
}

#[test]
fn default_mission_schedule() {
    let schedule = WaveSchedule::default_mission();
    assert!(!schedule.waves.is_empty());
    assert_eq!(schedule.waves[0].spawn_at_tick, 0);
    for w in 1..schedule.waves.len() {
        assert_eq!(
            schedule.waves[w].spawn_at_tick - schedule.waves[w - 1].spawn_at_tick,
            WAVE_INTERVAL_TICKS
        );
    }
    assert_eq!(schedule.waves.len(), 3);
    assert_eq!(schedule.total_threats(), 10);
}

#[test]
fn waves_spawn_once_when_due() {
    let mut schedule = WaveSchedule {
        waves: vec![
            WaveEntry::new(0, vec![(ThreatArchetype::SeaSkimmerMk1, 2)]),
            WaveEntry::new(100, vec![(ThreatArchetype::SubsonicDrone, 1)]),
        ],
    };
    assert_eq!(schedule.take_due_waves(0), vec![0]);
    assert_eq!(schedule.take_due_waves(50), Vec::<usize>::new());
    assert_eq!(schedule.take_due_waves(150), vec![1]);
    assert_eq!(schedule.take_due_waves(200), Vec::<usize>::new());
    assert!(schedule.all_spawned());
    assert_eq!(schedule.total_threats(), 3);
}

#[test]
fn wave_entry_with_bearing_and_range() {
    let w = WaveEntry::with_bearing_and_range(
        30,
        vec![(ThreatArchetype::SupersonicCruiser, 1)],
        1.5f64.to_bits(),
        90_000.0f64.to_bits(),
    );
    assert_eq!(w.spawn_at_tick, 30);
    assert!(!w.spawned);
    assert_eq!(w.spawn_bearing_bits, Some(1.5f64.to_bits()));
    assert_eq!(w.spawn_range_bits, Some(90_000.0f64.to_bits()));
    let b = WaveEntry::with_bearing(5, vec![], 0.25f64.to_bits());
    assert_eq!(b.spawn_bearing_bits, Some(0.25f64.to_bits()));
    assert_eq!(b.spawn_range_bits, None);
}
