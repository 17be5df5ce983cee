//! Engagement data model: the integer state of a fire-control engagement
//! and the running score of a mission.

use vstd::prelude::*;

use crate::enums::{EngagementPhase, InterceptResult, MissilePhase, WeaponType};

verus! {

/// Running score state tracked by the engine.
#[derive(Debug, Clone, Copy, Default, PartialEq, Eq, Structural)]
pub struct ScoreState {
    pub threats_killed: u32,
    pub threats_total: u32,
    pub interceptors_fired: u32,
    pub threats_impacted: u32,
}

impl ScoreState {
    /// Whether every defended asset is still intact (no threat has impacted).
    pub fn assets_protected(&self) -> (b: bool)
        ensures
            b == (self.threats_impacted == 0),
    {
        self.threats_impacted == 0
    }
}

/// A fire control engagement linking a target track to a weapon assignment.
///
/// The simulation keeps, beside it, what lives in the ECS world (the target
/// and interceptor entities) and the floating-point estimates (kill
/// probability, predicted intercept point, time to intercept).
#[derive(Debug, Clone, Copy, PartialEq, Eq, Structural)]
pub struct Engagement {
    pub id: u32,
    /// The track number of the target.
    pub target_track_number: u32,
    /// Current engagement phase.
    pub phase: EngagementPhase,
    /// Weapon type assigned to this engagement.
    pub weapon_type: WeaponType,
    /// VLS cell index assigned (if any).
    pub assigned_cell: Option<usize>,
    /// Tick at which the current phase started.
    pub phase_start_tick: u64,
    /// Veto clock ticks remaining (only in the Ready phase).
    pub veto_remaining_ticks: u64,
    /// Whether the 3-second warning has been emitted.
    pub warned_3s: bool,
    /// Whether the 1-second warning has been emitted.
    pub warned_1s: bool,
    /// Illuminator channel assigned for terminal guidance (if any).
    pub illuminator_channel: Option<u8>,
    /// Whether an interceptor has been launched and still exists.
    pub has_interceptor: bool,
    /// Result of the engagement (set when Complete).
    pub result: Option<InterceptResult>,
}

/// What the world shows of an engagement's interceptor and target this tick.
#[derive(Debug, Clone, Copy, PartialEq, Eq, Structural)]
pub struct FlightObservation {
    /// Phase of the interceptor missile, when it exists.
    pub missile_phase: Option<MissilePhase>,
    /// Whether the target still exists.
    pub target_present: bool,
    /// Interceptor-to-target range in whole meters rounded up, when both exist.
    pub interceptor_range_m: Option<u64>,
    /// A key that orders engagements as their time to intercept does
    /// (the bit pattern of the non-negative estimate).
    pub tti_order: u64,
}

} // verus!
