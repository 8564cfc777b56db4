//! The data access layer: the rows of the store and the transactional
//! operations over them.
//!
//! `Db` is the library's model of the relational store.  Every read
//! and write that belongs in one serializable transaction is one
//! method here, with a contract that pins the whole transition.
//! Durability lives outside the library: the process around it replays
//! these transitions onto SQL.

use vstd::prelude::*;

use crate::models::{CheckUp, Flag, NewFlag, Service, Team, Tick};

verus! {

/// Why a store operation was refused.
#[derive(Clone, Copy, PartialEq, Eq, Structural, Debug)]
pub enum DbError {
    /// No row matches the given key.
    NotFound,
    /// A row with the given primary key already exists.
    Duplicate,
    /// The flag has already been claimed by some team.
    AlreadyClaimed,
    /// A team may not claim its own flag.
    SelfFlag,
    /// The flag row is not finalized yet.
    InProgress,
}

/// The store: all tables plus the singleton tick record.
pub struct Db {
    pub teams: Vec<Team>,
    pub services: Vec<Service>,
    pub flags: Vec<Flag>,
    pub check_ups: Vec<CheckUp>,
    pub tick: Tick,
}

/// Whether a flag row carries the given primary key.
pub open spec fn flag_has_key(f: Flag, tick: int, team_id: int, service_name: Seq<char>) -> bool {
    f.tick == tick && f.team_id == team_id && f.service_name@ == service_name
}

/// Whether two flag rows carry the same primary key.
pub open spec fn same_flag_key(a: Flag, b: Flag) -> bool {
    a.tick == b.tick && a.team_id == b.team_id && a.service_name@ == b.service_name@
}

/// Whether two check-up rows carry the same primary key.
pub open spec fn same_checkup_key(a: CheckUp, b: CheckUp) -> bool {
    a.id == b.id && a.team_id == b.team_id && a.service_name@ == b.service_name@
}

/// No two distinct flag rows share a primary key.
pub open spec fn distinct_flag_keys(flags: Seq<Flag>) -> bool {
    forall|i: int, j: int|
        #![trigger flags[i], flags[j]]
        0 <= i < flags.len() && 0 <= j < flags.len() && i != j ==> !same_flag_key(
            flags[i],
            flags[j],
        )
}

/// No two distinct check-up rows share a primary key.
pub open spec fn distinct_checkup_keys(check_ups: Seq<CheckUp>) -> bool {
    forall|i: int, j: int|
        #![trigger check_ups[i], check_ups[j]]
        0 <= i < check_ups.len() && 0 <= j < check_ups.len() && i != j ==> !same_checkup_key(
            check_ups[i],
            check_ups[j],
        )
}

/// No two distinct team rows share an id.
pub open spec fn distinct_team_ids(teams: Seq<Team>) -> bool {
    forall|i: int, j: int|
        #![trigger teams[i], teams[j]]
        0 <= i < teams.len() && 0 <= j < teams.len() && i != j ==> teams[i].id != teams[j].id
}

/// No two distinct service rows share a name.
pub open spec fn distinct_service_names(services: Seq<Service>) -> bool {
    forall|i: int, j: int|
        #![trigger services[i], services[j]]
        0 <= i < services.len() && 0 <= j < services.len() && i != j
            ==> services[i].name@ != services[j].name@
}

/// A claimed flag is finalized and was claimed by another team.
pub open spec fn claims_ok(flags: Seq<Flag>) -> bool {
    forall|i: int|
        #![trigger flags[i]]
        0 <= i < flags.len() && flags[i].claimed_by is Some ==> !flags[i].in_progress
            && flags[i].claimed_by != Some(flags[i].team_id)
}

/// Scores of registered services are non-negative.
pub open spec fn service_scores_ok(services: Seq<Service>) -> bool {
    forall|i: int|
        #![trigger services[i]]
        0 <= i < services.len() ==> services[i].atk_score >= 0 && services[i].def_score >= 0
            && services[i].up_score >= 0
}

/// Whether some team row carries the given id.
pub open spec fn has_team(teams: Seq<Team>, id: int) -> bool {
    exists|i: int| 0 <= i < teams.len() && #[trigger] teams[i].id == id
}

/// Whether some service row carries the given name.
pub open spec fn has_service(services: Seq<Service>, name: Seq<char>) -> bool {
    exists|i: int| 0 <= i < services.len() && (#[trigger] services[i].name)@ == name
}

/// Whether some flag row carries the given primary key.
pub open spec fn has_flag_key(flags: Seq<Flag>, tick: int, team_id: int, name: Seq<char>) -> bool {
    exists|i: int| 0 <= i < flags.len() && flag_has_key(#[trigger] flags[i], tick, team_id, name)
}

/// Whether some check-up row carries the given primary key.
pub open spec fn has_checkup_key(
    check_ups: Seq<CheckUp>,
    id: int,
    team_id: int,
    name: Seq<char>,
) -> bool {
    exists|i: int|
        0 <= i < check_ups.len() && (#[trigger] check_ups[i]).id == id && check_ups[i].team_id
            == team_id && check_ups[i].service_name@ == name
}

/// The finalized-row predicate that `clear_in_progress` keeps.
pub open spec fn finalized_flag(f: Flag) -> bool {
    !f.in_progress
}

/// The finalized-row predicate for check-ups.
pub open spec fn finalized_checkup(c: CheckUp) -> bool {
    !c.in_progress
}

/// A flag row after the tick boundary passed over it: rows of the
/// closing tick are forced out of the in-progress state.
pub open spec fn flag_after_bump(f: Flag, closing_tick: int) -> Flag {
    if f.tick == closing_tick {
        Flag { in_progress: false, ..f }
    } else {
        f
    }
}

/// A check-up row after the check boundary passed over it.
pub open spec fn checkup_after_bump(c: CheckUp) -> CheckUp {
    CheckUp { in_progress: false, ..c }
}

impl Db {
    /// Well-formedness of the store.  In particular: every table has
    /// at most one row per primary key, and a claimed flag is a
    /// finalized flag of a team other than its claimant.
    pub open spec fn wf(self) -> bool {
        &&& distinct_flag_keys(self.flags@)
        &&& distinct_checkup_keys(self.check_ups@)
        &&& distinct_team_ids(self.teams@)
        &&& distinct_service_names(self.services@)
        &&& claims_ok(self.flags@)
        &&& service_scores_ok(self.services@)
        &&& self.tick.current_tick >= 0
        &&& self.tick.current_check >= 0
    }

    /// Create the store with empty tables and the singleton tick row
    /// holding zeros, as a fresh database starts.
    pub fn bootstrap() -> (db: Db)
        ensures
            db.wf(),
            db.teams@ == Seq::<Team>::empty(),
            db.services@ == Seq::<Service>::empty(),
            db.flags@ == Seq::<Flag>::empty(),
            db.check_ups@ == Seq::<CheckUp>::empty(),
            db.tick == (Tick { id: 0, start_time: 0, current_tick: 0, current_check: 0 }),
    {
        Db {
            teams: Vec::new(),
            services: Vec::new(),
            flags: Vec::new(),
            check_ups: Vec::new(),
            tick: Tick { id: 0, start_time: 0, current_tick: 0, current_check: 0 },
        }
    }

    /// The current tick number and when it was entered.
    pub fn get_current_tick(&self) -> (r: (i32, i64))
        ensures
            r.0 == self.tick.current_tick,
            r.1 == self.tick.start_time,
    {
        (self.tick.current_tick, self.tick.start_time)
    }

    /// The current check number.
    pub fn get_current_check(&self) -> (r: i32)
        ensures
            r == self.tick.current_check,
    {
        self.tick.current_check
    }

    /// Startup recovery: delete every flag and check-up row that is
    /// still marked in progress, and nothing else.  Losing one
    /// interrupted round is acceptable; half-written state is not.
    #[verifier::loop_isolation(false)]
    pub fn clear_in_progress(&mut self)
        requires
            old(self).wf(),
        ensures
            final(self).wf(),
            final(self).flags@ == old(self).flags@.filter(|f: Flag| finalized_flag(f)),
            final(self).check_ups@ == old(self).check_ups@.filter(
                |c: CheckUp| finalized_checkup(c),
            ),
            final(self).teams@ == old(self).teams@,
            final(self).services@ == old(self).services@,
            final(self).tick == old(self).tick,
    {
        let ghost all_flags = self.flags@;
        let ghost all_checks = self.check_ups@;
        let mut kept_flags: Vec<Flag> = Vec::new();
        let mut i: usize = 0;
        while i < self.flags.len()
            invariant
                i <= self.flags@.len(),
                self.flags@ == all_flags,
                kept_flags@ == all_flags.take(i as int).filter(|f: Flag| finalized_flag(f)),
            decreases self.flags@.len() - i,
        {
            proof {
                lemma_take_one_more(all_flags, i as int);
                lemma_filter_push(
                    all_flags.take(i as int),
                    all_flags[i as int],
                    |f: Flag| finalized_flag(f),
                );
            }
            if !self.flags[i].in_progress {
                let row = self.flags[i].duplicate();
                kept_flags.push(row);
            }
            i = i + 1;
        }
        let mut kept_checks: Vec<CheckUp> = Vec::new();
        let mut j: usize = 0;
        while j < self.check_ups.len()
            invariant
                j <= self.check_ups@.len(),
                self.check_ups@ == all_checks,
                kept_checks@ == all_checks.take(j as int).filter(
                    |c: CheckUp| finalized_checkup(c),
                ),
            decreases self.check_ups@.len() - j,
        {
            proof {
                lemma_take_one_more(all_checks, j as int);
                lemma_filter_push(
                    all_checks.take(j as int),
                    all_checks[j as int],
                    |c: CheckUp| finalized_checkup(c),
                );
            }
            if !self.check_ups[j].in_progress {
                let row = self.check_ups[j].duplicate();
                kept_checks.push(row);
            }
            j = j + 1;
        }
        proof {
            assert(all_flags.take(all_flags.len() as int) =~= all_flags);
            assert(all_checks.take(all_checks.len() as int) =~= all_checks);
            lemma_filter_keeps_distinct_flag_keys(all_flags, |f: Flag| finalized_flag(f));
            lemma_filter_keeps_distinct_checkup_keys(all_checks, |c: CheckUp| finalized_checkup(c));
            lemma_filter_element_of(all_flags, |f: Flag| finalized_flag(f));
            let kept = all_flags.filter(|f: Flag| finalized_flag(f));
            assert forall|a: int|
                0 <= a < kept.len() && kept[a].claimed_by is Some implies !kept[a].in_progress
                && kept[a].claimed_by != Some(kept[a].team_id) by {
                let k = choose|k: int| 0 <= k < all_flags.len() && all_flags[k] == kept[a];
                assert(all_flags[k].claimed_by is Some);
            }
        }
        self.flags = kept_flags;
        self.check_ups = kept_checks;
    }

    /// Close the flag round: force every flag row of the current tick
    /// out of the in-progress state (the safety net for sub-tasks that
    /// failed to finalize), then advance the tick and stamp its start.
    #[verifier::loop_isolation(false)]
    pub fn bump_tick(&mut self, now: i64)
        requires
            old(self).wf(),
            old(self).tick.current_tick < i32::MAX,
        ensures
            final(self).wf(),
            final(self).tick.current_tick == old(self).tick.current_tick + 1,
            final(self).tick.start_time == now,
            final(self).tick.current_check == old(self).tick.current_check,
            final(self).tick.id == old(self).tick.id,
            final(self).flags@.len() == old(self).flags@.len(),
            forall|k: int|
                0 <= k < old(self).flags@.len() ==> final(self).flags@[k] == flag_after_bump(
                    #[trigger] old(self).flags@[k],
                    old(self).tick.current_tick as int,
                ),
            final(self).check_ups@ == old(self).check_ups@,
            final(self).teams@ == old(self).teams@,
            final(self).services@ == old(self).services@,
    {
        let ghost orig = self.flags@;
        let closing = self.tick.current_tick;
        let mut i: usize = 0;
        while i < self.flags.len()
            invariant
                i <= self.flags@.len(),
                self.flags@.len() == orig.len(),
                forall|k: int|
                    0 <= k < i ==> self.flags@[k] == flag_after_bump(
                        #[trigger] orig[k],
                        closing as int,
                    ),
                forall|k: int| i <= k < orig.len() ==> #[trigger] self.flags@[k] == orig[k],
                self.tick == old(self).tick,
                self.teams@ == old(self).teams@,
                self.services@ == old(self).services@,
                self.check_ups@ == old(self).check_ups@,
            decreases self.flags@.len() - i,
        {
            if self.flags[i].tick == closing {
                let mut row = self.flags[i].duplicate();
                row.in_progress = false;
                self.flags[i] = row;
            }
            i = i + 1;
        }
        self.tick = Tick {
            id: self.tick.id,
            start_time: now,
            current_tick: self.tick.current_tick + 1,
            current_check: self.tick.current_check,
        };
        proof {
            assert forall|a: int, b: int|
                0 <= a < self.flags@.len() && 0 <= b < self.flags@.len() && a != b implies
                !same_flag_key(self.flags@[a], self.flags@[b]) by {
                assert(!same_flag_key(orig[a], orig[b]));
            }
            assert forall|a: int|
                0 <= a < self.flags@.len() && self.flags@[a].claimed_by is Some implies
                !self.flags@[a].in_progress && self.flags@[a].claimed_by != Some(
                self.flags@[a].team_id,
            ) by {
                assert(orig[a].claimed_by is Some);
            }
        }
    }

    /// Close the check round: force every check-up row out of the
    /// in-progress state, then advance the check number.
    #[verifier::loop_isolation(false)]
    pub fn bump_checks(&mut self)
        requires
            old(self).wf(),
            old(self).tick.current_check < i32::MAX,
        ensures
            final(self).wf(),
            final(self).tick.current_check == old(self).tick.current_check + 1,
            final(self).tick.current_tick == old(self).tick.current_tick,
            final(self).tick.start_time == old(self).tick.start_time,
            final(self).tick.id == old(self).tick.id,
            final(self).check_ups@.len() == old(self).check_ups@.len(),
            forall|k: int|
                0 <= k < old(self).check_ups@.len() ==> final(self).check_ups@[k]
                    == checkup_after_bump(#[trigger] old(self).check_ups@[k]),
            final(self).flags@ == old(self).flags@,
            final(self).teams@ == old(self).teams@,
            final(self).services@ == old(self).services@,
    {
        let ghost orig = self.check_ups@;
        let mut i: usize = 0;
        while i < self.check_ups.len()
            invariant
                i <= self.check_ups@.len(),
                self.check_ups@.len() == orig.len(),
                forall|k: int|
                    0 <= k < i ==> self.check_ups@[k] == checkup_after_bump(#[trigger] orig[k]),
                forall|k: int| i <= k < orig.len() ==> #[trigger] self.check_ups@[k] == orig[k],
                self.tick == old(self).tick,
                self.teams@ == old(self).teams@,
                self.services@ == old(self).services@,
                self.flags@ == old(self).flags@,
            decreases self.check_ups@.len() - i,
        {
            let mut row = self.check_ups[i].duplicate();
            row.in_progress = false;
            self.check_ups[i] = row;
            i = i + 1;
        }
        self.tick = Tick {
            id: self.tick.id,
            start_time: self.tick.start_time,
            current_tick: self.tick.current_tick,
            current_check: self.tick.current_check + 1,
        };
        proof {
            assert forall|a: int, b: int|
                0 <= a < self.check_ups@.len() && 0 <= b < self.check_ups@.len() && a != b implies
                !same_checkup_key(self.check_ups@[a], self.check_ups@[b]) by {
                assert(!same_checkup_key(orig[a], orig[b]));
            }
        }
    }
}

/// A flag row finalized by the defense verdict of its round.
pub open spec fn defense_applied(f: Flag, result: bool) -> Flag {
    Flag { defended: result, in_progress: false, ..f }
}

/// The flag row inserted by the flag loop: open, unclaimed, undefended.
pub open spec fn fresh_flag_row(new_flag: NewFlag, now: i64) -> Flag {
    Flag {
        tick: new_flag.tick,
        team_id: new_flag.team_id,
        service_name: new_flag.service_name,
        flag: new_flag.flag,
        flag_id: new_flag.flag_id,
        in_progress: true,
        claimed_by: None,
        defended: false,
        created: now,
    }
}

/// The check-up row recorded for one sub-task, finalized within the
/// same transaction that inserted it.
pub open spec fn fresh_checkup_row(
    check_number: i32,
    now: i64,
    team_id: i32,
    service_name: String,
    up: bool,
) -> CheckUp {
    CheckUp {
        id: check_number,
        team_id,
        service_name,
        in_progress: false,
        up,
        timestamp: now,
    }
}

impl Db {
    /// Idempotent insert of a team: reinserting an existing id is a
    /// no-op.  A created team starts with zero bonus points.
    #[verifier::loop_isolation(false)]
    pub fn add_team(&mut self, team_id: i32, team_ip: u32)
        requires
            old(self).wf(),
        ensures
            final(self).wf(),
            has_team(old(self).teams@, team_id as int) ==> *final(self) == *old(self),
            !has_team(old(self).teams@, team_id as int) ==> final(self).teams@ == old(
                self,
            ).teams@.push(Team { id: team_id, arbitrary_bonus_points: 0, ip: team_ip }),
            final(self).services@ == old(self).services@,
            final(self).flags@ == old(self).flags@,
            final(self).check_ups@ == old(self).check_ups@,
            final(self).tick == old(self).tick,
    {
        let mut i: usize = 0;
        while i < self.teams.len()
            invariant
                i <= self.teams@.len(),
                *self == *old(self),
                forall|k: int| 0 <= k < i ==> (#[trigger] self.teams@[k]).id != team_id,
            decreases self.teams@.len() - i,
        {
            if self.teams[i].id == team_id {
                return ;
            }
            i = i + 1;
        }
        self.teams.push(Team { id: team_id, arbitrary_bonus_points: 0, ip: team_ip });
        proof {
            let t = self.teams@;
            assert forall|a: int, b: int|
                0 <= a < t.len() && 0 <= b < t.len() && a != b implies t[a].id != t[b].id by {
                if a < t.len() - 1 && b < t.len() - 1 {
                    assert(old(self).teams@[a].id != old(self).teams@[b].id);
                }
            }
        }
    }

    /// Idempotent insert of a service: reinserting an existing name is
    /// a no-op.  Scores are non-negative by the data model.
    #[verifier::loop_isolation(false)]
    pub fn add_service(&mut self, new_service: Service)
        requires
            old(self).wf(),
            new_service.atk_score >= 0,
            new_service.def_score >= 0,
            new_service.up_score >= 0,
        ensures
            final(self).wf(),
            has_service(old(self).services@, new_service.name@) ==> *final(self) == *old(self),
            !has_service(old(self).services@, new_service.name@) ==> final(self).services@ == old(
                self,
            ).services@.push(new_service),
            final(self).teams@ == old(self).teams@,
            final(self).flags@ == old(self).flags@,
            final(self).check_ups@ == old(self).check_ups@,
            final(self).tick == old(self).tick,
    {
        let mut i: usize = 0;
        while i < self.services.len()
            invariant
                i <= self.services@.len(),
                *self == *old(self),
                forall|k: int| 0 <= k < i ==> (#[trigger] self.services@[k]).name@ != new_service.name@,
            decreases self.services@.len() - i,
        {
            if self.services[i].name == new_service.name {
                return ;
            }
            i = i + 1;
        }
        self.services.push(new_service);
        proof {
            let s = self.services@;
            assert forall|a: int, b: int|
                0 <= a < s.len() && 0 <= b < s.len() && a != b implies s[a].name@ != s[b].name@ by {
                if a < s.len() - 1 && b < s.len() - 1 {
                    assert(old(self).services@[a].name@ != old(self).services@[b].name@);
                }
            }
        }
    }

    /// Insert a freshly planted flag row: open, unclaimed, undefended,
    /// stamped with `now`.  Refused when a row with the same
    /// (tick, team, service) key already exists.
    #[verifier::loop_isolation(false)]
    pub fn insert_flag(&mut self, new_flag: NewFlag, now: i64) -> (r: Result<(), DbError>)
        requires
            old(self).wf(),
        ensures
            final(self).wf(),
            r is Ok <==> !has_flag_key(
                old(self).flags@,
                new_flag.tick as int,
                new_flag.team_id as int,
                new_flag.service_name@,
            ),
            r is Ok ==> final(self).flags@ == old(self).flags@.push(fresh_flag_row(new_flag, now)),
            r is Err ==> *final(self) == *old(self) && r == Err::<(), DbError>(DbError::Duplicate),
            final(self).teams@ == old(self).teams@,
            final(self).services@ == old(self).services@,
            final(self).check_ups@ == old(self).check_ups@,
            final(self).tick == old(self).tick,
    {
        let mut i: usize = 0;
        while i < self.flags.len()
            invariant
                i <= self.flags@.len(),
                *self == *old(self),
                forall|k: int|
                    0 <= k < i ==> !flag_has_key(
                        #[trigger] self.flags@[k],
                        new_flag.tick as int,
                        new_flag.team_id as int,
                        new_flag.service_name@,
                    ),
            decreases self.flags@.len() - i,
        {
            if self.flags[i].tick == new_flag.tick && self.flags[i].team_id == new_flag.team_id
                && self.flags[i].service_name == new_flag.service_name {
                return Err(DbError::Duplicate);
            }
            i = i + 1;
        }
        let ghost row = fresh_flag_row(new_flag, now);
        self.flags.push(
            Flag {
                tick: new_flag.tick,
                team_id: new_flag.team_id,
                service_name: new_flag.service_name,
                flag: new_flag.flag,
                flag_id: new_flag.flag_id,
                in_progress: true,
                claimed_by: None,
                defended: false,
                created: now,
            },
        );
        proof {
            let f = self.flags@;
            assert forall|a: int, b: int|
                0 <= a < f.len() && 0 <= b < f.len() && a != b implies !same_flag_key(
                f[a],
                f[b],
            ) by {
                if a < f.len() - 1 && b < f.len() - 1 {
                    assert(!same_flag_key(old(self).flags@[a], old(self).flags@[b]));
                }
            }
        }
        Ok(())
    }

    /// Record the outcome of one check-up sub-task.  The row is born
    /// and finalized inside the same transaction, so it is stored with
    /// `in_progress = false`.  Refused when a row with the same
    /// (check number, team, service) key already exists.
    #[verifier::loop_isolation(false)]
    pub fn insert_checkup(
        &mut self,
        check_number: i32,
        now: i64,
        team_id: i32,
        service_name: String,
        up: bool,
    ) -> (r: Result<(), DbError>)
        requires
            old(self).wf(),
        ensures
            final(self).wf(),
            r is Ok <==> !has_checkup_key(
                old(self).check_ups@,
                check_number as int,
                team_id as int,
                service_name@,
            ),
            r is Ok ==> final(self).check_ups@ == old(self).check_ups@.push(
                fresh_checkup_row(check_number, now, team_id, service_name, up),
            ),
            r is Err ==> *final(self) == *old(self) && r == Err::<(), DbError>(DbError::Duplicate),
            final(self).teams@ == old(self).teams@,
            final(self).services@ == old(self).services@,
            final(self).flags@ == old(self).flags@,
            final(self).tick == old(self).tick,
    {
        let mut i: usize = 0;
        while i < self.check_ups.len()
            invariant
                i <= self.check_ups@.len(),
                *self == *old(self),
                forall|k: int|
                    0 <= k < i ==> !((#[trigger] self.check_ups@[k]).id == check_number
                        && self.check_ups@[k].team_id == team_id
                        && self.check_ups@[k].service_name@ == service_name@),
            decreases self.check_ups@.len() - i,
        {
            if self.check_ups[i].id == check_number && self.check_ups[i].team_id == team_id
                && self.check_ups[i].service_name == service_name {
                return Err(DbError::Duplicate);
            }
            i = i + 1;
        }
        self.check_ups.push(
            CheckUp {
                id: check_number,
                team_id,
                service_name,
                in_progress: false,
                up,
                timestamp: now,
            },
        );
        proof {
            let c = self.check_ups@;
            assert forall|a: int, b: int|
                0 <= a < c.len() && 0 <= b < c.len() && a != b implies !same_checkup_key(
                c[a],
                c[b],
            ) by {
                if a < c.len() - 1 && b < c.len() - 1 {
                    assert(!same_checkup_key(old(self).check_ups@[a], old(self).check_ups@[b]));
                }
            }
        }
        Ok(())
    }

    /// Write the defense verdict of a round: the row under the given
    /// key gets `defended` set to the verdict and leaves the
    /// in-progress state.  A key that matches no row changes nothing,
    /// as an SQL update of zero rows would.
    #[verifier::loop_isolation(false)]
    pub fn update_defense(
        &mut self,
        tick: i32,
        team_id: i32,
        service_name: &String,
        result: bool,
    )
        requires
            old(self).wf(),
        ensures
            final(self).wf(),
            final(self).flags@.len() == old(self).flags@.len(),
            forall|k: int|
                0 <= k < old(self).flags@.len() ==> final(self).flags@[k] == (
                if flag_has_key(
                    #[trigger] old(self).flags@[k],
                    tick as int,
                    team_id as int,
                    service_name@,
                ) {
                    defense_applied(old(self).flags@[k], result)
                } else {
                    old(self).flags@[k]
                }),
            final(self).teams@ == old(self).teams@,
            final(self).services@ == old(self).services@,
            final(self).check_ups@ == old(self).check_ups@,
            final(self).tick == old(self).tick,
    {
        let ghost orig = self.flags@;
        let mut i: usize = 0;
        while i < self.flags.len()
            invariant
                i <= self.flags@.len(),
                self.flags@.len() == orig.len(),
                forall|k: int|
                    0 <= k < i ==> self.flags@[k] == (
                    if flag_has_key(#[trigger] orig[k], tick as int, team_id as int, service_name@) {
                        defense_applied(orig[k], result)
                    } else {
                        orig[k]
                    }),
                forall|k: int| i <= k < orig.len() ==> #[trigger] self.flags@[k] == orig[k],
                self.tick == old(self).tick,
                self.teams@ == old(self).teams@,
                self.services@ == old(self).services@,
                self.check_ups@ == old(self).check_ups@,
            decreases self.flags@.len() - i,
        {
            if self.flags[i].tick == tick && self.flags[i].team_id == team_id
                && self.flags[i].service_name == *service_name {
                let mut row = self.flags[i].duplicate();
                row.defended = result;
                row.in_progress = false;
                self.flags[i] = row;
            }
            i = i + 1;
        }
        proof {
            assert forall|a: int, b: int|
                0 <= a < self.flags@.len() && 0 <= b < self.flags@.len() && a != b implies
                !same_flag_key(self.flags@[a], self.flags@[b]) by {
                assert(!same_flag_key(orig[a], orig[b]));
            }
            assert forall|a: int|
                0 <= a < self.flags@.len() && self.flags@[a].claimed_by is Some implies
                !self.flags@[a].in_progress && self.flags@[a].claimed_by != Some(
                self.flags@[a].team_id,
            ) by {
                assert(orig[a].claimed_by is Some);
            }
        }
    }

    /// Atomically transfer ownership of a flag.  The row is re-read
    /// under the caller's key; the claim is refused if the row is
    /// missing, already claimed, the claimant's own, or not finalized
    /// yet.  A successful claim writes `claimed_by` and nothing else.
    #[verifier::loop_isolation(false)]
    pub fn claim_flag(&mut self, flag: &Flag, claimed_by: i32) -> (r: Result<(), DbError>)
        requires
            old(self).wf(),
        ensures
            final(self).wf(),
            !has_flag_key(
                old(self).flags@,
                flag.tick as int,
                flag.team_id as int,
                flag.service_name@,
            ) ==> r == Err::<(), DbError>(DbError::NotFound) && *final(self) == *old(self),
            forall|k: int|
                0 <= k < old(self).flags@.len() && flag_has_key(
                    #[trigger] old(self).flags@[k],
                    flag.tick as int,
                    flag.team_id as int,
                    flag.service_name@,
                ) ==> {
                    let row = old(self).flags@[k];
                    if row.claimed_by is Some {
                        r == Err::<(), DbError>(DbError::AlreadyClaimed) && *final(self) == *old(self)
                    } else if row.team_id == claimed_by {
                        r == Err::<(), DbError>(DbError::SelfFlag) && *final(self) == *old(self)
                    } else if row.in_progress {
                        r == Err::<(), DbError>(DbError::InProgress) && *final(self) == *old(self)
                    } else {
                        r == Ok::<(), DbError>(()) && final(self).flags@ == old(
                            self,
                        ).flags@.update(k, Flag { claimed_by: Some(claimed_by), ..row })
                    }
                },
            final(self).teams@ == old(self).teams@,
            final(self).services@ == old(self).services@,
            final(self).check_ups@ == old(self).check_ups@,
            final(self).tick == old(self).tick,
    {
        let ghost orig = self.flags@;
        let mut i: usize = 0;
        while i < self.flags.len()
            invariant
                i <= self.flags@.len(),
                *self == *old(self),
                forall|k: int|
                    0 <= k < i ==> !flag_has_key(
                        #[trigger] self.flags@[k],
                        flag.tick as int,
                        flag.team_id as int,
                        flag.service_name@,
                    ),
            decreases self.flags@.len() - i,
        {
            if self.flags[i].tick == flag.tick && self.flags[i].team_id == flag.team_id
                && self.flags[i].service_name == flag.service_name {
                if self.flags[i].claimed_by.is_some() {
                    return Err(DbError::AlreadyClaimed);
                }
                if self.flags[i].team_id == claimed_by {
                    return Err(DbError::SelfFlag);
                }
                if self.flags[i].in_progress {
                    return Err(DbError::InProgress);
                }
                let mut row = self.flags[i].duplicate();
                row.claimed_by = Some(claimed_by);
                self.flags[i] = row;
                proof {
                    assert forall|a: int, b: int|
                        0 <= a < self.flags@.len() && 0 <= b < self.flags@.len() && a != b implies
                        !same_flag_key(self.flags@[a], self.flags@[b]) by {
                        assert(!same_flag_key(orig[a], orig[b]));
                    }
                    assert forall|a: int|
                        0 <= a < self.flags@.len() && self.flags@[a].claimed_by is Some implies
                        !self.flags@[a].in_progress && self.flags@[a].claimed_by != Some(
                        self.flags@[a].team_id,
                    ) by {
                        if a != i {
                            assert(orig[a].claimed_by is Some);
                        }
                    }
                }
                return Ok(());
            }
            i = i + 1;
        }
        Err(DbError::NotFound)
    }

    /// The first row whose token string equals the given one, if any.
    #[verifier::loop_isolation(false)]
    pub fn lookup_flag(&self, flag: &String) -> (r: Result<Flag, DbError>)
        ensures
            r is Ok <==> exists|i: int|
                0 <= i < self.flags@.len() && (#[trigger] self.flags@[i]).flag@ == flag@,
            r matches Ok(f) ==> exists|i: int|
                {
                    &&& 0 <= i < self.flags@.len()
                    &&& f == #[trigger] self.flags@[i]
                    &&& self.flags@[i].flag@ == flag@
                    &&& forall|j: int| 0 <= j < i ==> (#[trigger] self.flags@[j]).flag@ != flag@
                },
            r is Err ==> r == Err::<Flag, DbError>(DbError::NotFound),
    {
        let mut i: usize = 0;
        while i < self.flags.len()
            invariant
                i <= self.flags@.len(),
                forall|k: int| 0 <= k < i ==> (#[trigger] self.flags@[k]).flag@ != flag@,
            decreases self.flags@.len() - i,
        {
            if self.flags[i].flag == *flag {
                return Ok(self.flags[i].duplicate());
            }
            i = i + 1;
        }
        Err(DbError::NotFound)
    }

    /// The flag row with the largest tick for the given pair, if any.
    #[verifier::loop_isolation(false)]
    pub fn get_last_flag(&self, team_id: i32, service_name: &String) -> (r: Result<Flag, DbError>)
        ensures
            r is Ok <==> exists|i: int|
                0 <= i < self.flags@.len() && (#[trigger] self.flags@[i]).team_id == team_id
                    && self.flags@[i].service_name@ == service_name@,
            r matches Ok(f) ==> {
                &&& exists|i: int| 0 <= i < self.flags@.len() && f == #[trigger] self.flags@[i]
                &&& f.team_id == team_id
                &&& f.service_name@ == service_name@
                &&& forall|j: int|
                    0 <= j < self.flags@.len() && (#[trigger] self.flags@[j]).team_id == team_id
                        && self.flags@[j].service_name@ == service_name@ ==> self.flags@[j].tick
                        <= f.tick
            },
            r is Err ==> r == Err::<Flag, DbError>(DbError::NotFound),
    {
        let mut best: Option<usize> = None;
        let mut i: usize = 0;
        while i < self.flags.len()
            invariant
                i <= self.flags@.len(),
                best matches Some(b) ==> {
                    &&& 0 <= b < i
                    &&& self.flags@[b as int].team_id == team_id
                    &&& self.flags@[b as int].service_name@ == service_name@
                },
                best is None ==> forall|k: int|
                    0 <= k < i ==> !((#[trigger] self.flags@[k]).team_id == team_id
                        && self.flags@[k].service_name@ == service_name@),
                best matches Some(b) ==> forall|k: int|
                    0 <= k < i && (#[trigger] self.flags@[k]).team_id == team_id
                        && self.flags@[k].service_name@ == service_name@ ==> self.flags@[k].tick
                        <= self.flags@[b as int].tick,
            decreases self.flags@.len() - i,
        {
            if self.flags[i].team_id == team_id && self.flags[i].service_name == *service_name {
                match best {
                    Some(b) => {
                        if self.flags[i].tick > self.flags[b].tick {
                            best = Some(i);
                        }
                    },
                    None => {
                        best = Some(i);
                    },
                }
            }
            i = i + 1;
        }
        match best {
            Some(b) => Ok(self.flags[b].duplicate()),
            None => Err(DbError::NotFound),
        }
    }

    /// All team rows, in insertion order.
    #[verifier::loop_isolation(false)]
    pub fn get_all_teams(&self) -> (r: Vec<Team>)
        ensures
            r@ == self.teams@,
    {
        let mut out: Vec<Team> = Vec::new();
        let mut i: usize = 0;
        while i < self.teams.len()
            invariant
                i <= self.teams@.len(),
                out@ == self.teams@.take(i as int),
            decreases self.teams@.len() - i,
        {
            proof {
                lemma_take_one_more(self.teams@, i as int);
            }
            out.push(self.teams[i]);
            i = i + 1;
        }
        proof {
            assert(self.teams@.take(self.teams@.len() as int) =~= self.teams@);
        }
        out
    }

    /// All service rows, in insertion order.
    #[verifier::loop_isolation(false)]
    pub fn get_all_services(&self) -> (r: Vec<Service>)
        ensures
            r@ == self.services@,
    {
        let mut out: Vec<Service> = Vec::new();
        let mut i: usize = 0;
        while i < self.services.len()
            invariant
                i <= self.services@.len(),
                out@ == self.services@.take(i as int),
            decreases self.services@.len() - i,
        {
            proof {
                lemma_take_one_more(self.services@, i as int);
            }
            out.push(self.services[i].duplicate());
            i = i + 1;
        }
        proof {
            assert(self.services@.take(self.services@.len() as int) =~= self.services@);
        }
        out
    }

    /// All flag rows, in insertion order.
    #[verifier::loop_isolation(false)]
    pub fn get_all_flags(&self) -> (r: Vec<Flag>)
        ensures
            r@ == self.flags@,
    {
        let mut out: Vec<Flag> = Vec::new();
        let mut i: usize = 0;
        while i < self.flags.len()
            invariant
                i <= self.flags@.len(),
                out@ == self.flags@.take(i as int),
            decreases self.flags@.len() - i,
        {
            proof {
                lemma_take_one_more(self.flags@, i as int);
            }
            out.push(self.flags[i].duplicate());
            i = i + 1;
        }
        proof {
            assert(self.flags@.take(self.flags@.len() as int) =~= self.flags@);
        }
        out
    }

    /// All check-up rows, in insertion order.
    #[verifier::loop_isolation(false)]
    pub fn get_all_checkups(&self) -> (r: Vec<CheckUp>)
        ensures
            r@ == self.check_ups@,
    {
        let mut out: Vec<CheckUp> = Vec::new();
        let mut i: usize = 0;
        while i < self.check_ups.len()
            invariant
                i <= self.check_ups@.len(),
                out@ == self.check_ups@.take(i as int),
            decreases self.check_ups@.len() - i,
        {
            proof {
                lemma_take_one_more(self.check_ups@, i as int);
            }
            out.push(self.check_ups[i].duplicate());
            i = i + 1;
        }
        proof {
            assert(self.check_ups@.take(self.check_ups@.len() as int) =~= self.check_ups@);
        }
        out
    }
}

/// A claim, once set, is never changed by the bookkeeping that touches
/// flag rows afterwards: the defense verdict and the tick boundary
/// keep `claimed_by` as it is, and the startup recovery keeps every
/// claimed row (a claimed row is finalized, and only in-progress rows
/// are dropped).
pub proof fn lemma_claim_immutable(f: Flag, verdict: bool, closing_tick: int, flags: Seq<Flag>)
    ensures
        defense_applied(f, verdict).claimed_by == f.claimed_by,
        flag_after_bump(f, closing_tick).claimed_by == f.claimed_by,
        claims_ok(flags) ==> forall|i: int|
            0 <= i < flags.len() && (#[trigger] flags[i]).claimed_by is Some ==> flags.filter(
                |g: Flag| finalized_flag(g),
            ).contains(flags[i]),
{
    broadcast use vstd::seq_lib::group_filter_ensures;

}

/// At most one flag row exists per (tick, team, service): in a
/// well-formed store, two indexes that carry the same flag key are the
/// same index.
pub proof fn lemma_at_most_one_flag_per_key(db: Db, i: int, j: int)
    requires
        db.wf(),
        0 <= i < db.flags@.len(),
        0 <= j < db.flags@.len(),
        same_flag_key(db.flags@[i], db.flags@[j]),
    ensures
        i == j,
{
}

/// At most one check-up row exists per (check number, team, service).
pub proof fn lemma_at_most_one_checkup_per_key(db: Db, i: int, j: int)
    requires
        db.wf(),
        0 <= i < db.check_ups@.len(),
        0 <= j < db.check_ups@.len(),
        same_checkup_key(db.check_ups@[i], db.check_ups@[j]),
    ensures
        i == j,
{
}

/// A sequence whose elements all satisfy the predicate is unchanged by
/// filtering with it.
pub proof fn lemma_filter_all_true<A>(s: Seq<A>, p: spec_fn(A) -> bool)
    requires
        forall|i: int| 0 <= i < s.len() ==> p(#[trigger] s[i]),
    ensures
        s.filter(p) == s,
    decreases s.len(),
{
    reveal(Seq::filter);
    if s.len() > 0 {
        lemma_filter_all_true(s.drop_last(), p);
        assert(s.drop_last().push(s.last()) =~= s);
    }
}

/// Filtering is idempotent: a second pass deletes nothing.
pub proof fn lemma_filter_idempotent<A>(s: Seq<A>, p: spec_fn(A) -> bool)
    ensures
        s.filter(p).filter(p) == s.filter(p),
{
    broadcast use vstd::seq_lib::group_filter_ensures;

    lemma_filter_all_true(s.filter(p), p);
}

/// Idempotent startup: the startup recovery of `clear_in_progress`
/// removes exactly the rows still marked in progress, so running it a
/// second time — as a server restarted against the same populated
/// store does — deletes nothing further.  The tick record is untouched
/// either time, so both runs observe the same `current_tick` and
/// `current_check`.
pub proof fn lemma_startup_idempotent(flags: Seq<Flag>, check_ups: Seq<CheckUp>)
    ensures
        flags.filter(|f: Flag| finalized_flag(f)).filter(|f: Flag| finalized_flag(f))
            == flags.filter(|f: Flag| finalized_flag(f)),
        check_ups.filter(|c: CheckUp| finalized_checkup(c)).filter(
            |c: CheckUp| finalized_checkup(c),
        ) == check_ups.filter(|c: CheckUp| finalized_checkup(c)),
{
    lemma_filter_idempotent(flags, |f: Flag| finalized_flag(f));
    lemma_filter_idempotent(check_ups, |c: CheckUp| finalized_checkup(c));
}

/// Taking one more element appends the element at the boundary.
pub proof fn lemma_take_one_more<A>(s: Seq<A>, i: int)
    requires
        0 <= i < s.len(),
    ensures
        s.take(i + 1) == s.take(i).push(s[i]),
{
    assert(s.take(i + 1) =~= s.take(i).push(s[i]));
}

/// Filtering a sequence extended by one element keeps the filtered
/// prefix and appends the element exactly when it satisfies the
/// predicate.
pub proof fn lemma_filter_push<A>(s: Seq<A>, x: A, p: spec_fn(A) -> bool)
    ensures
        s.push(x).filter(p) == if p(x) {
            s.filter(p).push(x)
        } else {
            s.filter(p)
        },
{
    reveal(Seq::filter);
    assert(s.push(x).drop_last() =~= s);
    assert(s.push(x).last() == x);
}

/// Every element of a filtered sequence is an element of the original.
pub proof fn lemma_filter_element_of<A>(s: Seq<A>, p: spec_fn(A) -> bool)
    ensures
        forall|i: int|
            0 <= i < s.filter(p).len() ==> exists|k: int|
                0 <= k < s.len() && s[k] == #[trigger] s.filter(p)[i],
    decreases s.len(),
{
    reveal(Seq::filter);
    if s.len() > 0 {
        let d = s.drop_last();
        lemma_filter_element_of(d, p);
        assert forall|i: int| 0 <= i < s.filter(p).len() implies exists|k: int|
            0 <= k < s.len() && s[k] == #[trigger] s.filter(p)[i] by {
            if i < d.filter(p).len() {
                let k = choose|k: int| 0 <= k < d.len() && d[k] == d.filter(p)[i];
                assert(s[k] == s.filter(p)[i]);
            } else {
                assert(s[s.len() - 1] == s.filter(p)[i]);
            }
        }
    }
}

/// Deleting rows cannot introduce a duplicate flag key.
pub proof fn lemma_filter_keeps_distinct_flag_keys(s: Seq<Flag>, p: spec_fn(Flag) -> bool)
    requires
        distinct_flag_keys(s),
    ensures
        distinct_flag_keys(s.filter(p)),
    decreases s.len(),
{
    reveal(Seq::filter);
    if s.len() > 0 {
        let d = s.drop_last();
        let last = s.last();
        assert(distinct_flag_keys(d)) by {
            assert forall|i: int, j: int|
                0 <= i < d.len() && 0 <= j < d.len() && i != j implies !same_flag_key(
                d[i],
                d[j],
            ) by {
                assert(d[i] == s[i] && d[j] == s[j]);
            }
        }
        lemma_filter_keeps_distinct_flag_keys(d, p);
        if p(last) {
            lemma_filter_element_of(d, p);
            assert forall|i: int, j: int|
                0 <= i < s.filter(p).len() && 0 <= j < s.filter(p).len() && i != j implies
                !same_flag_key(s.filter(p)[i], s.filter(p)[j]) by {
                let f = s.filter(p);
                let df = d.filter(p);
                if i < df.len() && j < df.len() {
                    assert(!same_flag_key(df[i], df[j]));
                } else if i < df.len() {
                    let k = choose|k: int| 0 <= k < d.len() && d[k] == df[i];
                    assert(s[k] == df[i] && s[s.len() - 1] == last);
                    assert(!same_flag_key(s[k], last));
                } else {
                    let k = choose|k: int| 0 <= k < d.len() && d[k] == df[j];
                    assert(s[k] == df[j] && s[s.len() - 1] == last);
                    assert(!same_flag_key(last, s[k]));
                }
            }
        }
    }
}

/// Deleting rows cannot introduce a duplicate check-up key.
pub proof fn lemma_filter_keeps_distinct_checkup_keys(s: Seq<CheckUp>, p: spec_fn(CheckUp) -> bool)
    requires
        distinct_checkup_keys(s),
    ensures
        distinct_checkup_keys(s.filter(p)),
    decreases s.len(),
{
    reveal(Seq::filter);
    if s.len() > 0 {
        let d = s.drop_last();
        let last = s.last();
        assert(distinct_checkup_keys(d)) by {
            assert forall|i: int, j: int|
                0 <= i < d.len() && 0 <= j < d.len() && i != j implies !same_checkup_key(
                d[i],
                d[j],
            ) by {
                assert(d[i] == s[i] && d[j] == s[j]);
            }
        }
        lemma_filter_keeps_distinct_checkup_keys(d, p);
        if p(last) {
            lemma_filter_element_of(d, p);
            assert forall|i: int, j: int|
                0 <= i < s.filter(p).len() && 0 <= j < s.filter(p).len() && i != j implies
                !same_checkup_key(s.filter(p)[i], s.filter(p)[j]) by {
                let df = d.filter(p);
                if i < df.len() && j < df.len() {
                    assert(!same_checkup_key(df[i], df[j]));
                } else if i < df.len() {
                    let k = choose|k: int| 0 <= k < d.len() && d[k] == df[i];
                    assert(s[k] == df[i] && s[s.len() - 1] == last);
                    assert(!same_checkup_key(s[k], last));
                } else {
                    let k = choose|k: int| 0 <= k < d.len() && d[k] == df[j];
                    assert(s[k] == df[j] && s[s.len() - 1] == last);
                    assert(!same_checkup_key(last, s[k]));
                }
            }
        }
    }
}

} // verus!
