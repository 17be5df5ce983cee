//! The mission lifecycle: the top-level game phase, the player commands that
//! move it, and when the simulation advances.

use vstd::prelude::*;

use crate::enums::{GamePhase, ScenarioId};

verus! {

/// Player commands that act on the mission lifecycle.
#[derive(Debug, Clone, Copy, PartialEq, Eq, Structural)]
pub enum LifecycleCommand {
    /// Select a scenario before starting a mission.
    SelectScenario(ScenarioId),
    /// Start a new mission with the selected scenario.
    StartMission,
    /// Return to the main menu from mission complete.
    ReturnToMenu,
    /// Pause the simulation.
    Pause,
    /// Resume the simulation.
    Resume,
}

/// Game phase and the scenario selected for the next mission.
#[derive(Debug, Clone, Copy, PartialEq, Eq, Structural)]
pub struct MissionLifecycle {
    pub phase: GamePhase,
    pub scenario: ScenarioId,
}

/// Whether a mission can be started (or a scenario chosen) in this phase:
/// in the main menu or the briefing.
pub open spec fn before_mission(phase: GamePhase) -> bool {
    phase == GamePhase::MainMenu || phase == GamePhase::MissionBriefing
}

/// The lifecycle after a command, and whether a new mission starts.
pub open spec fn lifecycle_step(l: MissionLifecycle, cmd: LifecycleCommand) -> (MissionLifecycle, bool) {
    match cmd {
        LifecycleCommand::SelectScenario(s) => if before_mission(l.phase) {
            (MissionLifecycle { scenario: s, ..l }, false)
        } else {
            (l, false)
        },
        LifecycleCommand::StartMission => if before_mission(l.phase) {
            (MissionLifecycle { phase: GamePhase::Active, ..l }, true)
        } else {
            (l, false)
        },
        LifecycleCommand::ReturnToMenu => if l.phase == GamePhase::MissionComplete {
            (MissionLifecycle { phase: GamePhase::MainMenu, ..l }, false)
        } else {
            (l, false)
        },
        LifecycleCommand::Pause => if l.phase == GamePhase::Active {
            (MissionLifecycle { phase: GamePhase::Paused, ..l }, false)
        } else {
            (l, false)
        },
        LifecycleCommand::Resume => if l.phase == GamePhase::Paused {
            (MissionLifecycle { phase: GamePhase::Active, ..l }, false)
        } else {
            (l, false)
        },
    }
}

impl MissionLifecycle {
    /// The lifecycle at launch: main menu, easy scenario selected.
    pub fn new() -> (l: MissionLifecycle)
        ensures
            l.phase == GamePhase::MainMenu,
            l.scenario == ScenarioId::Easy,
    {
        MissionLifecycle { phase: GamePhase::MainMenu, scenario: ScenarioId::Easy }
    }

    /// Apply a lifecycle command. Returns whether a new mission starts, in
    /// which case the caller sets up the world for the selected scenario.
    pub fn apply(&mut self, cmd: LifecycleCommand) -> (starts: bool)
        ensures
            (*final(self), starts) == lifecycle_step(*old(self), cmd),
    {
        match cmd {
            LifecycleCommand::SelectScenario(s) => {
                if matches!(self.phase, GamePhase::MainMenu | GamePhase::MissionBriefing) {
                    self.scenario = s;
                }
                false
            },
            LifecycleCommand::StartMission => {
                if matches!(self.phase, GamePhase::MainMenu | GamePhase::MissionBriefing) {
                    self.phase = GamePhase::Active;
                    true
                } else {
                    false
                }
            },
            LifecycleCommand::ReturnToMenu => {
                if self.phase == GamePhase::MissionComplete {
                    self.phase = GamePhase::MainMenu;
                }
                false
            },
            LifecycleCommand::Pause => {
                if self.phase == GamePhase::Active {
                    self.phase = GamePhase::Paused;
                }
                false
            },
            LifecycleCommand::Resume => {
                if self.phase == GamePhase::Paused {
                    self.phase = GamePhase::Active;
                }
                false
            },
        }
    }

    /// Whether the simulation runs its systems and advances time this tick.
    pub fn advances_time(&self) -> (b: bool)
        ensures
            b == (self.phase == GamePhase::Active),
    {
        self.phase == GamePhase::Active
    }

    /// End an active mission once every wave has spawned and no threat is
    /// left. Returns whether the mission completed now.
    pub fn complete_if_resolved(&mut self, all_spawned: bool, live_threats: usize) -> (done: bool)
        ensures
            done == (old(self).phase == GamePhase::Active && all_spawned && live_threats == 0),
            *final(self) == (if done {
                MissionLifecycle { phase: GamePhase::MissionComplete, ..*old(self) }
            } else {
                *old(self)
            }),
    {
        if self.phase == GamePhase::Active && all_spawned && live_threats == 0 {
            self.phase = GamePhase::MissionComplete;
            true
        } else {
            false
        }
    }
}

/// Pausing an active mission and resuming it gives back the same lifecycle.
pub proof fn lemma_pause_resume_roundtrip(l: MissionLifecycle)
    requires
        l.phase == GamePhase::Active,
    ensures
        lifecycle_step(lifecycle_step(l, LifecycleCommand::Pause).0, LifecycleCommand::Resume).0
            == l,
{
}

/// During a mission (active or paused), starting a mission or choosing a
/// scenario changes nothing.
pub proof fn lemma_mission_in_progress_ignores_setup(l: MissionLifecycle, s: ScenarioId)
    requires
        l.phase == GamePhase::Active || l.phase == GamePhase::Paused,
    ensures
        lifecycle_step(l, LifecycleCommand::StartMission) == (l, false),
        lifecycle_step(l, LifecycleCommand::SelectScenario(s)) == (l, false),
{
}

/// A mission starts exactly when StartMission arrives before a mission, and
/// it starts active with the selected scenario.
pub proof fn lemma_missions_start_only_from_menu(l: MissionLifecycle, cmd: LifecycleCommand)
    ensures
        lifecycle_step(l, cmd).1 <==> (cmd == LifecycleCommand::StartMission && before_mission(
            l.phase,
        )),
        lifecycle_step(l, cmd).1 ==> lifecycle_step(l, cmd).0 == (MissionLifecycle {
            phase: GamePhase::Active,
            scenario: l.scenario,
        }),
{
}

} // verus!
