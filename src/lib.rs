//! Gameplay rules of a top-down survival game: the wave director that
//! schedules spawns, enemy hit and despawn bookkeeping, player health and
//! scoring, character controls and sprite animation frames, and the
//! merging of wall tiles into collision rectangles.
//!
//! Time is measured in whole milliseconds throughout.

pub mod timer;
pub mod waves;
pub mod controls;
pub mod enemy;
pub mod item;
pub mod player;
pub mod scoring;
pub mod sprites;
pub mod walls;
