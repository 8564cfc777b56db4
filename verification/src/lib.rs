//! Game server core for an attack/defense capture-the-flag competition.
//!
//! The library holds the verified heart of the server: the bookkeeping
//! rules of the relational store (teams, services, flags, check-ups and
//! the global tick record), the submission controller, the scoreboard
//! aggregation, the flag token generator, and the per-round decision
//! logic of the flag and check-up loops.  I/O — the SQL connection, the
//! checker subprocesses, timers and the web front end — lives outside
//! the library and hands it plain values.

pub mod check_up;
pub mod config;
pub mod controllers;
pub mod db;
pub mod flag_io;
pub mod game;
pub mod key;
pub mod models;
pub mod service;
pub mod util;
pub mod utils;
