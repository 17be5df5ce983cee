//! Simulation constants that the integer logic of the library depends on.

use vstd::prelude::*;

verus! {

/// Simulation tick rate (Hz).
pub const TICK_RATE: u32 = 30;

/// Number of consecutive detections to initiate a track.
pub const TRACK_INITIATE_HITS: u32 = 3;

/// Number of consecutive misses to drop a track.
pub const TRACK_DROP_MISSES: u32 = 5;

/// Number of illuminator channels.
pub const ILLUMINATOR_COUNT: u8 = 3;

/// Default number of VLS cells.
pub const VLS_CELL_COUNT: usize = 64;

/// Maximum simultaneous engagements.
pub const MAX_SIMULTANEOUS_ENGAGEMENTS: usize = 12;

/// Default interval between waves (ticks). ~10 seconds at 30Hz.
pub const WAVE_INTERVAL_TICKS: u64 = 300;

/// Maximum number of position history dots per track.
pub const MAX_HISTORY_DOTS: usize = 12;

/// History dot interval in ticks (one dot every N ticks).
pub const HISTORY_DOT_INTERVAL: u32 = 15;

/// Range from target at which sea-skimmers begin the pop-up maneuver (meters).
pub const THREAT_POPUP_RANGE_M: u64 = 50_000;

/// Range from target at which threats transition to the terminal phase (meters).
pub const THREAT_TERMINAL_RANGE_M: u64 = 30_000;

/// Range at which a threat is considered to have impacted its target (meters).
pub const THREAT_IMPACT_RANGE_M: u64 = 50;

/// Duration of the pop-up maneuver (whole seconds).
pub const THREAT_POPUP_DURATION_SECS: u64 = 3;

/// Ranges beyond this (meters) prefer the extended range missile.
pub const EXTENDED_RANGE_PREFERENCE_M: u64 = 100_000;

/// Ranges beyond this (meters), up to the extended range threshold, prefer the standard missile.
pub const STANDARD_PREFERENCE_M: u64 = 20_000;

/// Solution calculation time in ticks (2 seconds at 30 Hz).
pub const SOLUTION_CALC_TICKS: u64 = 60;

/// Battle damage assessment delay in ticks (1.5 seconds at 30 Hz).
pub const BDA_DELAY_TICKS: u64 = 45;

/// Nanoseconds in one second.
pub const NANOS_PER_SEC: u64 = 1_000_000_000;

/// Full illuminator dwell on one engagement, in ticks (3 seconds).
pub const ILLUMINATOR_DWELL_TICKS: u64 = 90;

/// Interceptor-to-target range within which an engagement asks for
/// illumination: one and a half times the 20 km terminal guidance range.
pub const ILLUMINATION_REQUEST_RANGE_M: u64 = 30_000;

/// Veto clock duration, in ticks (8 seconds).
pub const VETO_CLOCK_TICKS: u64 = 240;

/// First veto clock warning: 3 seconds left, in ticks.
pub const VETO_WARNING_1_TICKS: u64 = 90;

/// Second veto clock warning: 1 second left, in ticks.
pub const VETO_WARNING_2_TICKS: u64 = 30;

/// Interceptor boost phase duration, in ticks (5 seconds).
pub const MISSILE_BOOST_TICKS: u64 = 150;

/// Range at which an interceptor may enter terminal guidance (meters).
pub const TERMINAL_GUIDANCE_RANGE_M: u64 = 20_000;

/// Distance within which an interceptor detonates against its target (meters).
pub const INTERCEPT_LETHAL_RADIUS_M: u64 = 20;

} // verus!
