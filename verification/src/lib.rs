//! Verified core of the DETERRENCE naval air-defence simulation.
//!
//! The library holds the integer and discrete logic of the game: the
//! vocabulary of enums, the launcher (VLS) bookkeeping, fire-control
//! planning, the illuminator scheduler, threat phase decisions, wave
//! schedules, and the terrain file formats (`.dtrn`, `.hgt`).

pub mod enums;
pub mod constants;
pub mod components;
pub mod terrain;
pub mod fire_control;
pub mod threat_ai;
pub mod wave_spawner;
pub mod scenario;
pub mod state;
pub mod world_setup;
pub mod engagement;
pub mod illuminator;
pub mod display_scale;
pub mod game_loop;
pub mod engine;
pub mod movement;
pub mod intercept;
