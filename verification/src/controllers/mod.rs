//! Controllers sitting between the store and the web surface.

pub mod flag;
pub mod scoreboard;
