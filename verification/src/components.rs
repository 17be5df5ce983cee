//! ECS component data that carries no floating-point state.
//!
//! Components are plain data; the game logic that reads them lives in
//! the other modules of the library.

use vstd::prelude::*;

use crate::constants::TRACK_INITIATE_HITS;
use crate::enums::{AlertLevel, CellStatus, IlluminatorStatus};

verus! {

/// Launcher system (VLS or similar).
#[derive(Debug, Clone)]
pub struct LauncherSystem {
    /// Status of each cell.
    pub cells: Vec<CellStatus>,
}

/// Marks an entity as the player's own ship/battery.
#[derive(Debug, Clone, Copy)]
pub struct OwnShip;

/// Marks an entity as a threat (enemy missile/aircraft).
#[derive(Debug, Clone, Copy)]
pub struct Threat;

/// Marks an entity as a friendly interceptor.
#[derive(Debug, Clone, Copy)]
pub struct Interceptor;

/// Marks an entity as a civilian aircraft.
#[derive(Debug, Clone, Copy)]
pub struct Civilian;

/// Pre-track detection accumulator.
/// Attached to entities that are detectable but not yet tracked.
/// After `TRACK_INITIATE_HITS` consecutive hits, the entity is promoted to a full track.
#[derive(Debug, Clone, Copy, Default, PartialEq, Eq, Structural)]
pub struct DetectionCounter {
    /// Cumulative consecutive detection hits from radar sweeps.
    pub hits: u32,
    /// Cumulative consecutive detection misses.
    pub misses: u32,
    /// Tick of last sweep evaluation (prevents double-counting in one sweep).
    pub last_sweep_tick: u64,
}

impl DetectionCounter {
    /// A counter with no sweeps recorded.
    pub fn new() -> (c: DetectionCounter)
        ensures
            c.hits == 0,
            c.misses == 0,
            c.last_sweep_tick == 0,
    {
        DetectionCounter { hits: 0, misses: 0, last_sweep_tick: 0 }
    }

    /// Record the outcome of one radar sweep evaluation at `tick`.
    /// A detection extends the run of hits and clears the misses; a miss does the opposite.
    pub fn record_sweep(&mut self, tick: u64, detected: bool)
        requires
            detected ==> old(self).hits < u32::MAX,
            !detected ==> old(self).misses < u32::MAX,
        ensures
            final(self).last_sweep_tick == tick,
            detected ==> final(self).hits == old(self).hits + 1 && final(self).misses == 0,
            !detected ==> final(self).misses == old(self).misses + 1 && final(self).hits == 0,
    {
        self.last_sweep_tick = tick;
        if detected {
            self.hits = self.hits + 1;
            self.misses = 0;
        } else {
            self.misses = self.misses + 1;
            self.hits = 0;
        }
    }

    /// Whether enough consecutive hits have accumulated to initiate a track.
    pub fn ready_to_initiate(&self) -> (b: bool)
        ensures
            b == (self.hits >= TRACK_INITIATE_HITS),
    {
        self.hits >= TRACK_INITIATE_HITS
    }
}

/// Alert for the UI alert queue.
#[derive(Debug, Clone)]
pub struct Alert {
    pub level: AlertLevel,
    pub message: String,
    pub tick: u64,
}

/// Illuminator channel for semi-active terminal guidance.
#[derive(Debug, Clone, Copy, PartialEq, Eq, Structural)]
pub struct Illuminator {
    pub channel_id: u8,
    pub status: IlluminatorStatus,
    /// Engagement ID currently being illuminated (if any).
    pub assigned_engagement: Option<u32>,
    /// Dwell left on the current engagement while time-sharing, in ticks.
    pub dwell_remaining_ticks: u64,
}

impl Illuminator {
    /// An idle channel with the given id.
    pub fn new(channel_id: u8) -> (i: Illuminator)
        ensures
            i.channel_id == channel_id,
            i.status == IlluminatorStatus::Idle,
            i.assigned_engagement.is_none(),
            i.dwell_remaining_ticks == 0,
    {
        Illuminator {
            channel_id,
            status: IlluminatorStatus::Idle,
            assigned_engagement: None,
            dwell_remaining_ticks: 0,
        }
    }
}

} // verus!
