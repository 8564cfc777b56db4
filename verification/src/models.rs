//! Rows of the relational store: teams, services, flags, check-ups and
//! the singleton tick record.
//!
//! Timestamps are carried as Unix seconds; an IPv4 address as its 32-bit
//! value.

use vstd::prelude::*;

verus! {

/// The singleton tick record.  `current_tick` and `current_check` are
/// monotonically nondecreasing and nonnegative for the lifetime of the
/// server.
#[derive(Clone, Copy, PartialEq, Eq, Structural, Debug)]
pub struct Tick {
    pub id: i32,
    /// When `current_tick` was entered, in Unix seconds.
    pub start_time: i64,
    pub current_tick: i32,
    pub current_check: i32,
}

/// A competing team as stored.
#[derive(Clone, Copy, PartialEq, Eq, Structural, Debug)]
pub struct Team {
    pub id: i32,
    /// Admin-set correction added to the computed total score.
    pub arbitrary_bonus_points: i32,
    /// IPv4 address of the competitor host, as its 32-bit value.
    pub ip: u32,
}

/// A team row about to be inserted; the bonus points default to zero.
#[derive(Clone, Copy, PartialEq, Eq, Structural, Debug)]
pub struct NewTeam {
    pub id: i32,
    pub ip: i32,
}

/// A registered service as stored.  All scores are non-negative.
#[derive(Debug)]
pub struct Service {
    pub name: String,
    pub port: i32,

    pub atk_score: i32,
    pub def_score: i32,
    pub up_score: i32,
}

/// A flag row, keyed by (`tick`, `team_id`, `service_name`).
#[derive(Debug)]
pub struct Flag {
    pub tick: i32,
    pub team_id: i32,
    pub service_name: String,

    /// The planted token string.
    pub flag: String,
    /// Opaque handle optionally returned by the set_flag checker.
    pub flag_id: Option<String>,

    pub in_progress: bool,
    /// The team that presented this flag via the submission endpoint, if any.
    pub claimed_by: Option<i32>,
    /// Whether the next round's get_flag returned exactly `flag`.
    pub defended: bool,
    /// Insertion time, in Unix seconds.
    pub created: i64,
}

impl Flag {
    /// Whether some team has claimed this flag.
    pub fn is_claimed(&self) -> (r: bool)
        ensures
            r == self.claimed_by is Some,
    {
        self.claimed_by.is_some()
    }

    /// An exact copy of this row.
    pub fn duplicate(&self) -> (r: Flag)
        ensures
            r == *self,
    {
        Flag {
            tick: self.tick,
            team_id: self.team_id,
            service_name: self.service_name.clone(),
            flag: self.flag.clone(),
            flag_id: clone_opt_string(&self.flag_id),
            in_progress: self.in_progress,
            claimed_by: self.claimed_by,
            defended: self.defended,
            created: self.created,
        }
    }
}

/// A flag row about to be inserted by the flag loop.
pub struct NewFlag {
    pub tick: i32,
    pub team_id: i32,
    pub service_name: String,

    pub flag: String,
    pub flag_id: Option<String>,
}

/// A check-up row, keyed by (`id`, `team_id`, `service_name`), where
/// `id` is the check number of the round that produced it.
#[derive(Debug)]
pub struct CheckUp {
    pub id: i32,
    pub team_id: i32,
    pub service_name: String,
    pub in_progress: bool,
    /// Whether the check-up checker exited successfully.
    pub up: bool,
    /// When the check-up was recorded, in Unix seconds.
    pub timestamp: i64,
}

impl CheckUp {
    /// An exact copy of this row.
    pub fn duplicate(&self) -> (r: CheckUp)
        ensures
            r == *self,
    {
        CheckUp {
            id: self.id,
            team_id: self.team_id,
            service_name: self.service_name.clone(),
            in_progress: self.in_progress,
            up: self.up,
            timestamp: self.timestamp,
        }
    }
}

impl Service {
    /// An exact copy of this row.
    pub fn duplicate(&self) -> (r: Service)
        ensures
            r == *self,
    {
        Service {
            name: self.name.clone(),
            port: self.port,
            atk_score: self.atk_score,
            def_score: self.def_score,
            up_score: self.up_score,
        }
    }
}

/// An exact copy of an optional string.
pub fn clone_opt_string(o: &Option<String>) -> (r: Option<String>)
    ensures
        r == *o,
{
    match o {
        Some(s) => Some(s.clone()),
        None => None,
    }
}

} // verus!
