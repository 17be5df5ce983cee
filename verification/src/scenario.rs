//! Scenario definitions: the wave schedule and theater of each mission.

use vstd::prelude::*;

use crate::constants::TICK_RATE;
use crate::enums::{ScenarioId, ThreatArchetype};
use crate::wave_spawner::{total_threat_count, wave_spec, WaveEntry, WaveEntryView, WaveSchedule};

verus! {

/// `f64` bits of bearing 0 (North).
pub const BEARING_NORTH_BITS: u64 = 0x0;

/// `f64` bits of bearing π/2 (East).
pub const BEARING_EAST_BITS: u64 = 0x3ff9_21fb_5444_2d18;

/// `f64` bits of bearing 1.25·π (Southwest, 225°).
pub const BEARING_SOUTHWEST_BITS: u64 = 0x400f_6a7a_2955_385e;

/// `f64` bits of 165 km.
pub const RANGE_165_KM_BITS: u64 = 0x4104_2440_0000_0000;

/// `f64` bits of 180 km.
pub const RANGE_180_KM_BITS: u64 = 0x4105_f900_0000_0000;

/// `f64` bits of 26.5 (degrees).
pub const LAT_26_5_BITS: u64 = 0x403a_8000_0000_0000;

/// `f64` bits of 56.2 (degrees).
pub const LON_56_2_BITS: u64 = 0x404c_1999_9999_999a;

/// Time-on-top offset: a supersonic cruiser spawned this many seconds after
/// a sea-skimmer wave arrives together with it.
pub const TIME_ON_TOP_OFFSET_SECS: u64 = 357;

/// Geographic setting of a scenario.
#[derive(Debug, Clone)]
pub struct TheaterConfig {
    pub name: String,
    /// Terrain file of the theater; `None` for open ocean.
    pub terrain_file: Option<String>,
    /// Theater center latitude (degrees, `f64` bits).
    pub center_lat_bits: u64,
    /// Theater center longitude (degrees, `f64` bits).
    pub center_lon_bits: u64,
}

/// Convert whole seconds to ticks.
pub fn secs_to_ticks(secs: u64) -> (t: u64)
    requires
        secs * TICK_RATE <= u64::MAX,
    ensures
        t == secs * TICK_RATE,
{
    secs * (TICK_RATE as u64)
}

/// Waves of the Easy scenario, "Training Exercise": 3 waves, 8 threats, all
/// from the North, 20 s apart; sea-skimmers and one drone.
pub open spec fn easy_waves() -> Seq<WaveEntryView> {
    seq![
        wave_spec(0, seq![(ThreatArchetype::SeaSkimmerMk1, 3u32)], Some(BEARING_NORTH_BITS), None),
        wave_spec(
            600,
            seq![(ThreatArchetype::SeaSkimmerMk1, 2u32), (ThreatArchetype::SubsonicDrone, 1u32)],
            Some(BEARING_NORTH_BITS),
            None,
        ),
        wave_spec(1200, seq![(ThreatArchetype::SeaSkimmerMk1, 2u32)], Some(BEARING_NORTH_BITS), None),
    ]
}

/// Waves of the Medium scenario, "Multi-Axis Raid": 5 waves from North and
/// East, with a time-on-top pair (waves 3a and 3b).
pub open spec fn medium_waves() -> Seq<WaveEntryView> {
    seq![
        wave_spec(0, seq![(ThreatArchetype::SeaSkimmerMk1, 3u32)], Some(BEARING_NORTH_BITS), None),
        wave_spec(450, seq![(ThreatArchetype::SeaSkimmerMk1, 2u32)], Some(BEARING_EAST_BITS), None),
        wave_spec(
            900,
            seq![(ThreatArchetype::SeaSkimmerMk1, 3u32)],
            Some(BEARING_NORTH_BITS),
            Some(RANGE_165_KM_BITS),
        ),
        wave_spec(
            11610,
            seq![(ThreatArchetype::SupersonicCruiser, 2u32)],
            Some(BEARING_EAST_BITS),
            Some(RANGE_180_KM_BITS),
        ),
        wave_spec(1800, seq![(ThreatArchetype::SeaSkimmerMk2, 2u32)], Some(BEARING_NORTH_BITS), None),
    ]
}

/// Waves of the Hard scenario, "Saturation Attack": 7 waves from North,
/// East and Southwest, with a tactical ballistic missile and saturation waves.
pub open spec fn hard_waves() -> Seq<WaveEntryView> {
    seq![
        wave_spec(0, seq![(ThreatArchetype::SeaSkimmerMk1, 3u32)], Some(BEARING_NORTH_BITS), None),
        wave_spec(300, seq![(ThreatArchetype::SeaSkimmerMk1, 3u32)], Some(BEARING_EAST_BITS), None),
        wave_spec(
            600,
            seq![(ThreatArchetype::SeaSkimmerMk2, 2u32), (ThreatArchetype::SubsonicDrone, 1u32)],
            Some(BEARING_SOUTHWEST_BITS),
            None,
        ),
        wave_spec(
            1050,
            seq![(ThreatArchetype::SeaSkimmerMk1, 4u32)],
            Some(BEARING_NORTH_BITS),
            Some(RANGE_165_KM_BITS),
        ),
        wave_spec(
            11760,
            seq![(ThreatArchetype::SupersonicCruiser, 2u32)],
            Some(BEARING_EAST_BITS),
            Some(RANGE_180_KM_BITS),
        ),
        wave_spec(
            1500,
            seq![(ThreatArchetype::TacticalBallistic, 1u32)],
            Some(BEARING_SOUTHWEST_BITS),
            Some(RANGE_180_KM_BITS),
        ),
        wave_spec(1950, seq![(ThreatArchetype::SeaSkimmerMk2, 5u32)], Some(BEARING_NORTH_BITS), None),
    ]
}

/// The waves of a scenario.
pub open spec fn scenario_waves(scenario: ScenarioId) -> Seq<WaveEntryView> {
    match scenario {
        ScenarioId::Easy => easy_waves(),
        ScenarioId::Medium => medium_waves(),
        ScenarioId::Hard => hard_waves(),
    }
}

fn one_threat(a: ThreatArchetype, n: u32) -> (v: Vec<(ThreatArchetype, u32)>)
    ensures
        v@ == seq![(a, n)],
{
    let mut v: Vec<(ThreatArchetype, u32)> = Vec::new();
    v.push((a, n));
    assert(v@ =~= seq![(a, n)]);
    v
}

fn two_threats(a: ThreatArchetype, n: u32, b: ThreatArchetype, m: u32) -> (v: Vec<
    (ThreatArchetype, u32),
>)
    ensures
        v@ == seq![(a, n), (b, m)],
{
    let mut v: Vec<(ThreatArchetype, u32)> = Vec::new();
    v.push((a, n));
    v.push((b, m));
    assert(v@ =~= seq![(a, n), (b, m)]);
    v
}

/// Easy: "Training Exercise".
fn build_easy() -> (s: WaveSchedule)
    ensures
        s@ == easy_waves(),
{
    let north = BEARING_NORTH_BITS;
    let mut waves: Vec<WaveEntry> = Vec::new();
    // Wave 1 (t=0): 3x SeaSkimmerMk1 from North
    waves.push(WaveEntry::with_bearing(0, one_threat(ThreatArchetype::SeaSkimmerMk1, 3), north));
    // Wave 2 (t=20s): 2x SeaSkimmerMk1 + 1x SubsonicDrone from North
    waves.push(
        WaveEntry::with_bearing(
            secs_to_ticks(20),
            two_threats(ThreatArchetype::SeaSkimmerMk1, 2, ThreatArchetype::SubsonicDrone, 1),
            north,
        ),
    );
    // Wave 3 (t=40s): 2x SeaSkimmerMk1 from North
    waves.push(
        WaveEntry::with_bearing(
            secs_to_ticks(40),
            one_threat(ThreatArchetype::SeaSkimmerMk1, 2),
            north,
        ),
    );
    let s = WaveSchedule { waves };
    assert(s@ =~= easy_waves());
    s
}

/// Medium: "Multi-Axis Raid".
fn build_medium() -> (s: WaveSchedule)
    ensures
        s@ == medium_waves(),
{
    let north = BEARING_NORTH_BITS;
    let east = BEARING_EAST_BITS;
    // Time-on-top: SeaSkimmerMk1 at 165 km (~290 m/s) arrives in ~569 s, a
    // SupersonicCruiser at 180 km (~850 m/s) in ~212 s; spawning the cruisers
    // ~357 s later makes both arrive together.
    let tot_offset = secs_to_ticks(TIME_ON_TOP_OFFSET_SECS);
    let mut waves: Vec<WaveEntry> = Vec::new();
    // Wave 1 (t=0): 3x SeaSkimmerMk1 from North
    waves.push(WaveEntry::with_bearing(0, one_threat(ThreatArchetype::SeaSkimmerMk1, 3), north));
    // Wave 2 (t=15s): 2x SeaSkimmerMk1 from East
    waves.push(
        WaveEntry::with_bearing(
            secs_to_ticks(15),
            one_threat(ThreatArchetype::SeaSkimmerMk1, 2),
            east,
        ),
    );
    // Wave 3a (t=30s): 3x SeaSkimmerMk1 from North (time-on-top pair)
    waves.push(
        WaveEntry::with_bearing_and_range(
            secs_to_ticks(30),
            one_threat(ThreatArchetype::SeaSkimmerMk1, 3),
            north,
            RANGE_165_KM_BITS,
        ),
    );
    // Wave 3b (t=30s + offset): 2x SupersonicCruiser from East
    waves.push(
        WaveEntry::with_bearing_and_range(
            secs_to_ticks(30) + tot_offset,
            one_threat(ThreatArchetype::SupersonicCruiser, 2),
            east,
            RANGE_180_KM_BITS,
        ),
    );
    // Wave 4 (t=60s): 2x SeaSkimmerMk2 from North
    waves.push(
        WaveEntry::with_bearing(
            secs_to_ticks(60),
            one_threat(ThreatArchetype::SeaSkimmerMk2, 2),
            north,
        ),
    );
    let s = WaveSchedule { waves };
    assert(s@ =~= medium_waves());
    s
}

/// Hard: "Saturation Attack".
fn build_hard() -> (s: WaveSchedule)
    ensures
        s@ == hard_waves(),
{
    let north = BEARING_NORTH_BITS;
    let east = BEARING_EAST_BITS;
    let southwest = BEARING_SOUTHWEST_BITS;
    let tot_offset = secs_to_ticks(TIME_ON_TOP_OFFSET_SECS);
    let mut waves: Vec<WaveEntry> = Vec::new();
    // Wave 1 (t=0): 3x SeaSkimmerMk1 from North
    waves.push(WaveEntry::with_bearing(0, one_threat(ThreatArchetype::SeaSkimmerMk1, 3), north));
    // Wave 2 (t=10s): 3x SeaSkimmerMk1 from East
    waves.push(
        WaveEntry::with_bearing(
            secs_to_ticks(10),
            one_threat(ThreatArchetype::SeaSkimmerMk1, 3),
            east,
        ),
    );
    // Wave 3 (t=20s): 2x SeaSkimmerMk2 + 1x SubsonicDrone from Southwest
    waves.push(
        WaveEntry::with_bearing(
            secs_to_ticks(20),
            two_threats(ThreatArchetype::SeaSkimmerMk2, 2, ThreatArchetype::SubsonicDrone, 1),
            southwest,
        ),
    );
    // Wave 4a (t=35s): 4x SeaSkimmerMk1 from North — saturation wave
    waves.push(
        WaveEntry::with_bearing_and_range(
            secs_to_ticks(35),
            one_threat(ThreatArchetype::SeaSkimmerMk1, 4),
            north,
            RANGE_165_KM_BITS,
        ),
    );
    // Wave 4b (t=35s + offset): 2x SupersonicCruiser from East — time-on-top
    waves.push(
        WaveEntry::with_bearing_and_range(
            secs_to_ticks(35) + tot_offset,
            one_threat(ThreatArchetype::SupersonicCruiser, 2),
            east,
            RANGE_180_KM_BITS,
        ),
    );
    // Wave 5 (t=50s): 1x TacticalBallistic from Southwest
    waves.push(
        WaveEntry::with_bearing_and_range(
            secs_to_ticks(50),
            one_threat(ThreatArchetype::TacticalBallistic, 1),
            southwest,
            RANGE_180_KM_BITS,
        ),
    );
    // Wave 6 (t=65s): 5x SeaSkimmerMk2 from North — final saturation
    waves.push(
        WaveEntry::with_bearing(
            secs_to_ticks(65),
            one_threat(ThreatArchetype::SeaSkimmerMk2, 5),
            north,
        ),
    );
    let s = WaveSchedule { waves };
    assert(s@ =~= hard_waves());
    s
}

/// Theater of a scenario: open ocean for Easy and Medium, the Strait of
/// Hormuz with its terrain for Hard.
pub open spec fn theater_spec(scenario: ScenarioId, t: TheaterConfig) -> bool {
    match scenario {
        ScenarioId::Easy => t.name@ == "Training Area"@ && t.terrain_file is None
            && t.center_lat_bits == 0 && t.center_lon_bits == 0,
        ScenarioId::Medium => t.name@ == "Open Ocean"@ && t.terrain_file is None
            && t.center_lat_bits == 0 && t.center_lon_bits == 0,
        ScenarioId::Hard => {
            &&& t.name@ == "Strait of Hormuz"@
            &&& t.terrain_file matches Some(f) && f@ == "terrain/hormuz.dtrn"@
            &&& t.center_lat_bits == LAT_26_5_BITS
            &&& t.center_lon_bits == LON_56_2_BITS
        },
    }
}

/// Build the wave schedule and theater for a given scenario.
pub fn build_schedule(scenario: ScenarioId) -> (r: (WaveSchedule, TheaterConfig))
    ensures
        r.0@ == scenario_waves(scenario),
        theater_spec(scenario, r.1),
{
    match scenario {
        ScenarioId::Easy => (
            build_easy(),
            TheaterConfig {
                name: "Training Area".to_owned(),
                terrain_file: None,
                center_lat_bits: 0,
                center_lon_bits: 0,
            },
        ),
        ScenarioId::Medium => (
            build_medium(),
            TheaterConfig {
                name: "Open Ocean".to_owned(),
                terrain_file: None,
                center_lat_bits: 0,
                center_lon_bits: 0,
            },
        ),
        ScenarioId::Hard => (
            build_hard(),
            TheaterConfig {
                name: "Strait of Hormuz".to_owned(),
                terrain_file: Some("terrain/hormuz.dtrn".to_owned()),
                center_lat_bits: LAT_26_5_BITS,
                center_lon_bits: LON_56_2_BITS,
            },
        ),
    }
}

/// The scenarios' threat totals: 8 for Easy, 12 for Medium, 21 for Hard.
pub proof fn lemma_scenario_totals()
    ensures
        total_threat_count(easy_waves()) == 8,
        total_threat_count(medium_waves()) == 12,
        total_threat_count(hard_waves()) == 21,
{
    reveal_with_fuel(total_threat_count, 8);
    reveal_with_fuel(crate::wave_spawner::wave_threat_count, 3);
}

} // verus!
