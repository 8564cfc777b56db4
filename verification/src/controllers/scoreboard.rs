//! The scoreboard aggregator: derived team totals and per-round grids,
//! computed on demand from the persisted rows.

use vstd::prelude::*;

use crate::db::{
    distinct_service_names, has_service, lemma_filter_push, lemma_take_one_more,
    service_scores_ok, Db,
};
use crate::models::{CheckUp, Flag, Service, Team};

verus! {

/// Derived totals of one team.
#[derive(Clone, Copy, PartialEq, Eq, Structural, Debug)]
pub struct SummaryEntry {
    pub id: i32,
    pub atk_score: i64,
    pub def_score: i64,
    pub up_score: i64,
    pub total_score: i64,
}

/// The index of the service row with the given name; meaningful only
/// when one exists.
pub open spec fn service_index(services: Seq<Service>, name: Seq<char>) -> int {
    choose|i: int| 0 <= i < services.len() && (#[trigger] services[i].name)@ == name
}

/// The attack value of the named service, or nothing when the service
/// is not registered.
pub open spec fn svc_atk(services: Seq<Service>, name: Seq<char>) -> int {
    if has_service(services, name) {
        services[service_index(services, name)].atk_score as int
    } else {
        0
    }
}

/// The defense value of the named service.
pub open spec fn svc_def(services: Seq<Service>, name: Seq<char>) -> int {
    if has_service(services, name) {
        services[service_index(services, name)].def_score as int
    } else {
        0
    }
}

/// The uptime value of the named service.
pub open spec fn svc_up(services: Seq<Service>, name: Seq<char>) -> int {
    if has_service(services, name) {
        services[service_index(services, name)].up_score as int
    } else {
        0
    }
}

/// Attack total: the sum, over the flags claimed by the team, of the
/// attack value of the flag's service.
pub open spec fn atk_sum(flags: Seq<Flag>, services: Seq<Service>, team: i32) -> int
    decreases flags.len(),
{
    if flags.len() == 0 {
        0
    } else {
        atk_sum(flags.drop_last(), services, team) + (
        if flags.last().claimed_by == Some(team) {
            svc_atk(services, flags.last().service_name@)
        } else {
            0
        })
    }
}

/// Defense total: the sum, over the team's own defended and unclaimed
/// flags, of the defense value of the flag's service.
pub open spec fn def_sum(flags: Seq<Flag>, services: Seq<Service>, team: i32) -> int
    decreases flags.len(),
{
    if flags.len() == 0 {
        0
    } else {
        def_sum(flags.drop_last(), services, team) + (
        if flags.last().team_id == team && flags.last().defended && flags.last().claimed_by
            is None {
            svc_def(services, flags.last().service_name@)
        } else {
            0
        })
    }
}

/// Uptime total: the sum, over the team's successful check-ups, of the
/// uptime value of the check-up's service.
pub open spec fn up_sum(check_ups: Seq<CheckUp>, services: Seq<Service>, team: i32) -> int
    decreases check_ups.len(),
{
    if check_ups.len() == 0 {
        0
    } else {
        up_sum(check_ups.drop_last(), services, team) + (
        if check_ups.last().team_id == team && check_ups.last().up {
            svc_up(services, check_ups.last().service_name@)
        } else {
            0
        })
    }
}

/// Every per-row contribution lies between 0 and `i32::MAX`, so a sum
/// is bounded by the row count times that.
proof fn lemma_atk_sum_bounds(flags: Seq<Flag>, services: Seq<Service>, team: i32)
    requires
        service_scores_ok(services),
    ensures
        0 <= atk_sum(flags, services, team) <= flags.len() * (i32::MAX as int),
    decreases flags.len(),
{
    if flags.len() > 0 {
        lemma_atk_sum_bounds(flags.drop_last(), services, team);
    }
}

proof fn lemma_def_sum_bounds(flags: Seq<Flag>, services: Seq<Service>, team: i32)
    requires
        service_scores_ok(services),
    ensures
        0 <= def_sum(flags, services, team) <= flags.len() * (i32::MAX as int),
    decreases flags.len(),
{
    if flags.len() > 0 {
        lemma_def_sum_bounds(flags.drop_last(), services, team);
    }
}

proof fn lemma_up_sum_bounds(check_ups: Seq<CheckUp>, services: Seq<Service>, team: i32)
    requires
        service_scores_ok(services),
    ensures
        0 <= up_sum(check_ups, services, team) <= check_ups.len() * (i32::MAX as int),
    decreases check_ups.len(),
{
    if check_ups.len() > 0 {
        lemma_up_sum_bounds(check_ups.drop_last(), services, team);
    }
}

/// Find the row of the named service.
#[verifier::loop_isolation(false)]
fn find_service<'a>(services: &'a Vec<Service>, name: &String) -> (r: Option<&'a Service>)
    requires
        distinct_service_names(services@),
    ensures
        r is Some <==> has_service(services@, name@),
        r matches Some(s) ==> *s == services@[service_index(services@, name@)],
    {
    let mut i: usize = 0;
    while i < services.len()
        invariant
            i <= services@.len(),
            forall|k: int| 0 <= k < i ==> (#[trigger] services@[k].name)@ != name@,
        decreases services@.len() - i,
    {
        if services[i].name == *name {
            proof {
                let j = service_index(services@, name@);
                assert(0 <= j < services@.len() && services@[j].name@ == name@);
            }
            return Some(&services[i]);
        }
        i = i + 1;
    }
    None
}

/// Upper bound on table sizes accepted by the aggregator, so that the
/// 64-bit totals cannot overflow.
pub open spec fn table_len_ok(n: int) -> bool {
    n <= 0x4000_0000
}

/// Compute the derived totals of one team, as the scoreboard shows
/// them: attack plus defense plus uptime plus the admin-set bonus.
#[verifier::loop_isolation(false)]
pub fn team_summary(
    flags: &Vec<Flag>,
    check_ups: &Vec<CheckUp>,
    services: &Vec<Service>,
    team: &Team,
) -> (r: SummaryEntry)
    requires
        distinct_service_names(services@),
        service_scores_ok(services@),
        table_len_ok(flags@.len() as int),
        table_len_ok(check_ups@.len() as int),
    ensures
        r.id == team.id,
        r.atk_score == atk_sum(flags@, services@, team.id),
        r.def_score == def_sum(flags@, services@, team.id),
        r.up_score == up_sum(check_ups@, services@, team.id),
        r.total_score == r.atk_score + r.def_score + r.up_score + team.arbitrary_bonus_points,
{
    let mut atk: i64 = 0;
    let mut def: i64 = 0;
    let mut i: usize = 0;
    while i < flags.len()
        invariant
            i <= flags@.len(),
            atk == atk_sum(flags@.take(i as int), services@, team.id),
            def == def_sum(flags@.take(i as int), services@, team.id),
        decreases flags@.len() - i,
    {
        proof {
            assert(flags@.take(i + 1).drop_last() =~= flags@.take(i as int));
            assert(flags@.take(i + 1).last() == flags@[i as int]);
            lemma_atk_sum_bounds(flags@.take(i as int), services@, team.id);
            lemma_def_sum_bounds(flags@.take(i as int), services@, team.id);
        }
        let row = &flags[i];
        let claimed_by_team = match row.claimed_by {
            Some(t) => t == team.id,
            None => false,
        };
        if claimed_by_team {
            match find_service(services, &row.service_name) {
                Some(s) => {
                    atk = atk + (s.atk_score as i64);
                },
                None => {},
            }
        } else if row.team_id == team.id && row.defended && row.claimed_by.is_none() {
            match find_service(services, &row.service_name) {
                Some(s) => {
                    def = def + (s.def_score as i64);
                },
                None => {},
            }
        }
        i = i + 1;
    }
    proof {
        assert(flags@.take(flags@.len() as int) =~= flags@);
    }
    let mut up: i64 = 0;
    let mut j: usize = 0;
    while j < check_ups.len()
        invariant
            j <= check_ups@.len(),
            up == up_sum(check_ups@.take(j as int), services@, team.id),
        decreases check_ups@.len() - j,
    {
        proof {
            assert(check_ups@.take(j + 1).drop_last() =~= check_ups@.take(j as int));
            assert(check_ups@.take(j + 1).last() == check_ups@[j as int]);
            lemma_up_sum_bounds(check_ups@.take(j as int), services@, team.id);
        }
        let row = &check_ups[j];
        if row.team_id == team.id && row.up {
            match find_service(services, &row.service_name) {
                Some(s) => {
                    up = up + (s.up_score as i64);
                },
                None => {},
            }
        }
        j = j + 1;
    }
    proof {
        assert(check_ups@.take(check_ups@.len() as int) =~= check_ups@);
        lemma_atk_sum_bounds(flags@, services@, team.id);
        lemma_def_sum_bounds(flags@, services@, team.id);
        lemma_up_sum_bounds(check_ups@, services@, team.id);
    }
    let total: i64 = atk + def + up + (team.arbitrary_bonus_points as i64);
    SummaryEntry { id: team.id, atk_score: atk, def_score: def, up_score: up, total_score: total }
}

/// One closed flag round as the scoreboard shows it: the round number
/// and its finalized rows.
pub struct TickEntry {
    pub number: i32,
    pub data: Vec<Flag>,
}

/// One closed check round as the scoreboard shows it.
pub struct UptimeEntry {
    pub number: i32,
    pub data: Vec<CheckUp>,
}

/// The scoreboard view handed to the web front end.
pub struct ScoreboardContext {
    /// How long ago the current round started, in seconds.
    pub round_start_ago: i64,
    /// The current round's full length as shown: its computed length
    /// plus the jitter bound, in seconds.
    pub round_length: u64,
    /// Seconds until the shown round length elapses; negative once the
    /// round overran it.
    pub remaining_time: i64,
    /// Derived totals, one entry per team, in team table order.
    pub teams: Vec<SummaryEntry>,
    /// Closed flag rounds, newest first.
    pub ticks: Vec<TickEntry>,
    /// Closed check rounds, oldest first.
    pub checks: Vec<UptimeEntry>,
}

/// Strictly decreasing sequence of round numbers.
pub open spec fn strictly_desc(s: Seq<i32>) -> bool {
    forall|i: int, j: int| 0 <= i < j < s.len() ==> s[i] > s[j]
}

/// Strictly increasing sequence of round numbers.
pub open spec fn strictly_asc(s: Seq<i32>) -> bool {
    forall|i: int, j: int| 0 <= i < j < s.len() ==> s[i] < s[j]
}

/// Whether some finalized flag row of a tick other than the current
/// one carries the round number `n`.
pub open spec fn closed_tick_exists(flags: Seq<Flag>, n: i32, current: i32) -> bool {
    n != current && exists|i: int|
        0 <= i < flags.len() && !(#[trigger] flags[i]).in_progress && flags[i].tick == n
}

/// Whether some finalized check-up row carries the check number `n`.
pub open spec fn closed_check_exists(check_ups: Seq<CheckUp>, n: i32) -> bool {
    exists|i: int|
        0 <= i < check_ups.len() && !(#[trigger] check_ups[i]).in_progress && check_ups[i].id == n
}

/// The finalized flag rows of round `n`, in table order.
pub open spec fn tick_rows(flags: Seq<Flag>, n: i32) -> Seq<Flag> {
    flags.filter(|f: Flag| !f.in_progress && f.tick == n)
}

/// The finalized check-up rows of check round `n`, in table order.
pub open spec fn check_rows(check_ups: Seq<CheckUp>, n: i32) -> Seq<CheckUp> {
    check_ups.filter(|c: CheckUp| !c.in_progress && c.id == n)
}

/// Whether the sequence holds the value.
fn vec_contains_i32(v: &Vec<i32>, x: i32) -> (r: bool)
    ensures
        r == v@.contains(x),
{
    let mut i: usize = 0;
    while i < v.len()
        invariant
            i <= v@.len(),
            forall|k: int| 0 <= k < i ==> v@[k] != x,
        decreases v@.len() - i,
    {
        if v[i] == x {
            assert(v@[i as int] == x);
            return true;
        }
        i = i + 1;
    }
    assert(!v@.contains(x));
    false
}

/// Insert a fresh value into a strictly decreasing sequence, keeping
/// the order.
#[verifier::loop_isolation(false)]
fn insert_desc(v: &mut Vec<i32>, n: i32)
    requires
        strictly_desc(old(v)@),
        !old(v)@.contains(n),
    ensures
        strictly_desc(final(v)@),
        final(v)@.len() == old(v)@.len() + 1,
        forall|x: i32| final(v)@.contains(x) <==> old(v)@.contains(x) || x == n,
    {
    let mut p: usize = 0;
    while p < v.len() && v[p] > n
        invariant
            p <= v@.len(),
            forall|k: int| 0 <= k < p ==> v@[k] > n,
        decreases v@.len() - p,
    {
        p = p + 1;
    }
    proof {
        if p < v@.len() {
            assert(v@[p as int] != n) by {
                assert(!v@.contains(n));
            }
        }
    }
    v.insert(p, n);
    proof {
        assert forall|x: i32| final(v)@.contains(x) implies old(v)@.contains(x) || x == n by {
            let k = choose|k: int| 0 <= k < v@.len() && v@[k] == x;
            if k < p {
                assert(old(v)@[k] == x);
            } else if k > p {
                assert(old(v)@[k - 1] == x);
            }
        }
        assert forall|x: i32| old(v)@.contains(x) implies final(v)@.contains(x) by {
            let k = choose|k: int| 0 <= k < old(v)@.len() && old(v)@[k] == x;
            if k < p {
                assert(v@[k] == x);
            } else {
                assert(v@[k + 1] == x);
            }
        }
        assert(v@[p as int] == n);
    }
}

/// Insert a fresh value into a strictly increasing sequence, keeping
/// the order.
#[verifier::loop_isolation(false)]
fn insert_asc(v: &mut Vec<i32>, n: i32)
    requires
        strictly_asc(old(v)@),
        !old(v)@.contains(n),
    ensures
        strictly_asc(final(v)@),
        final(v)@.len() == old(v)@.len() + 1,
        forall|x: i32| final(v)@.contains(x) <==> old(v)@.contains(x) || x == n,
    {
    let mut p: usize = 0;
    while p < v.len() && v[p] < n
        invariant
            p <= v@.len(),
            forall|k: int| 0 <= k < p ==> v@[k] < n,
        decreases v@.len() - p,
    {
        p = p + 1;
    }
    proof {
        if p < v@.len() {
            assert(v@[p as int] != n) by {
                assert(!v@.contains(n));
            }
        }
    }
    v.insert(p, n);
    proof {
        assert forall|x: i32| final(v)@.contains(x) implies old(v)@.contains(x) || x == n by {
            let k = choose|k: int| 0 <= k < v@.len() && v@[k] == x;
            if k < p {
                assert(old(v)@[k] == x);
            } else if k > p {
                assert(old(v)@[k - 1] == x);
            }
        }
        assert forall|x: i32| old(v)@.contains(x) implies final(v)@.contains(x) by {
            let k = choose|k: int| 0 <= k < old(v)@.len() && old(v)@[k] == x;
            if k < p {
                assert(v@[k] == x);
            } else {
                assert(v@[k + 1] == x);
            }
        }
        assert(v@[p as int] == n);
    }
}

/// The round numbers of all closed flag rounds, newest first.
#[verifier::loop_isolation(false)]
fn closed_tick_numbers(flags: &Vec<Flag>, current: i32) -> (r: Vec<i32>)
    ensures
        strictly_desc(r@),
        forall|k: int| 0 <= k < r@.len() ==> closed_tick_exists(flags@, #[trigger] r@[k], current),
        forall|i: int|
            0 <= i < flags@.len() && !(#[trigger] flags@[i]).in_progress && flags@[i].tick
                != current ==> r@.contains(flags@[i].tick),
    {
    let mut numbers: Vec<i32> = Vec::new();
    let mut i: usize = 0;
    while i < flags.len()
        invariant
            i <= flags@.len(),
            strictly_desc(numbers@),
            forall|k: int|
                0 <= k < numbers@.len() ==> closed_tick_exists(
                    flags@,
                    #[trigger] numbers@[k],
                    current,
                ),
            forall|j: int|
                0 <= j < i && !(#[trigger] flags@[j]).in_progress && flags@[j].tick != current
                    ==> numbers@.contains(flags@[j].tick),
        decreases flags@.len() - i,
    {
        let row = &flags[i];
        if !row.in_progress && row.tick != current {
            if !vec_contains_i32(&numbers, row.tick) {
                let ghost before = numbers@;
                let ghost n = row.tick;
                insert_desc(&mut numbers, row.tick);
                proof {
                    assert forall|k: int| 0 <= k < numbers@.len() implies closed_tick_exists(
                        flags@,
                        #[trigger] numbers@[k],
                        current,
                    ) by {
                        assert(numbers@.contains(numbers@[k]));
                        if numbers@[k] != n {
                            assert(before.contains(numbers@[k]));
                            let l = choose|l: int|
                                0 <= l < before.len() && before[l] == numbers@[k];
                            assert(closed_tick_exists(flags@, before[l], current));
                        }
                    }
                }
            }
        }
        i = i + 1;
    }
    numbers
}

/// The round numbers of all closed check rounds, oldest first.
#[verifier::loop_isolation(false)]
fn closed_check_numbers(check_ups: &Vec<CheckUp>) -> (r: Vec<i32>)
    ensures
        strictly_asc(r@),
        forall|k: int| 0 <= k < r@.len() ==> closed_check_exists(check_ups@, #[trigger] r@[k]),
        forall|i: int|
            0 <= i < check_ups@.len() && !(#[trigger] check_ups@[i]).in_progress
                ==> r@.contains(check_ups@[i].id),
    {
    let mut numbers: Vec<i32> = Vec::new();
    let mut i: usize = 0;
    while i < check_ups.len()
        invariant
            i <= check_ups@.len(),
            strictly_asc(numbers@),
            forall|k: int|
                0 <= k < numbers@.len() ==> closed_check_exists(check_ups@, #[trigger] numbers@[k]),
            forall|j: int|
                0 <= j < i && !(#[trigger] check_ups@[j]).in_progress ==> numbers@.contains(
                    check_ups@[j].id,
                ),
        decreases check_ups@.len() - i,
    {
        let row = &check_ups[i];
        if !row.in_progress {
            if !vec_contains_i32(&numbers, row.id) {
                let ghost before = numbers@;
                let ghost n = row.id;
                insert_asc(&mut numbers, row.id);
                proof {
                    assert forall|k: int| 0 <= k < numbers@.len() implies closed_check_exists(
                        check_ups@,
                        #[trigger] numbers@[k],
                    ) by {
                        assert(numbers@.contains(numbers@[k]));
                        if numbers@[k] != n {
                            assert(before.contains(numbers@[k]));
                            let l = choose|l: int|
                                0 <= l < before.len() && before[l] == numbers@[k];
                            assert(closed_check_exists(check_ups@, before[l]));
                        }
                    }
                }
            }
        }
        i = i + 1;
    }
    numbers
}

/// The finalized flag rows of round `n`, in table order.
#[verifier::loop_isolation(false)]
fn rows_at_tick(flags: &Vec<Flag>, n: i32) -> (r: Vec<Flag>)
    ensures
        r@ == tick_rows(flags@, n),
    {
    let mut out: Vec<Flag> = Vec::new();
    let mut i: usize = 0;
    while i < flags.len()
        invariant
            i <= flags@.len(),
            out@ == flags@.take(i as int).filter(|f: Flag| !f.in_progress && f.tick == n),
        decreases flags@.len() - i,
    {
        proof {
            lemma_take_one_more(flags@, i as int);
            lemma_filter_push(
                flags@.take(i as int),
                flags@[i as int],
                |f: Flag| !f.in_progress && f.tick == n,
            );
        }
        if !flags[i].in_progress && flags[i].tick == n {
            out.push(flags[i].duplicate());
        }
        i = i + 1;
    }
    proof {
        assert(flags@.take(flags@.len() as int) =~= flags@);
    }
    out
}

/// The finalized check-up rows of check round `n`, in table order.
#[verifier::loop_isolation(false)]
fn rows_at_check(check_ups: &Vec<CheckUp>, n: i32) -> (r: Vec<CheckUp>)
    ensures
        r@ == check_rows(check_ups@, n),
    {
    let mut out: Vec<CheckUp> = Vec::new();
    let mut i: usize = 0;
    while i < check_ups.len()
        invariant
            i <= check_ups@.len(),
            out@ == check_ups@.take(i as int).filter(|c: CheckUp| !c.in_progress && c.id == n),
        decreases check_ups@.len() - i,
    {
        proof {
            lemma_take_one_more(check_ups@, i as int);
            lemma_filter_push(
                check_ups@.take(i as int),
                check_ups@[i as int],
                |c: CheckUp| !c.in_progress && c.id == n,
            );
        }
        if !check_ups[i].in_progress && check_ups[i].id == n {
            out.push(check_ups[i].duplicate());
        }
        i = i + 1;
    }
    proof {
        assert(check_ups@.take(check_ups@.len() as int) =~= check_ups@);
    }
    out
}

impl ScoreboardContext {
    /// Build the scoreboard from the store: one summary entry per team
    /// with the totals of the score formula, the closed flag rounds
    /// newest first, and the closed check rounds oldest first.  The
    /// current tick and every in-progress row are excluded from the
    /// grids.  The current round's length arrives as a plain value;
    /// the shown length and the time remaining add the jitter bound,
    /// under which a sub-task may still start.
    #[verifier::loop_isolation(false)]
    pub fn from_db(db: &Db, now: i64, round_length: u64, delay: u64) -> (r: ScoreboardContext)
        requires
            db.wf(),
            table_len_ok(db.flags@.len() as int),
            table_len_ok(db.check_ups@.len() as int),
            db.tick.start_time >= 0,
            now >= db.tick.start_time,
            now < 0x4000_0000_0000_0000,
            round_length < 0x1_0000_0000,
            delay < 0x1_0000_0000,
        ensures
            r.round_start_ago == now - db.tick.start_time,
            r.round_length == round_length + delay,
            r.remaining_time == db.tick.start_time + round_length + delay - now,
            r.teams@.len() == db.teams@.len(),
            forall|k: int|
                0 <= k < db.teams@.len() ==> {
                    let team = #[trigger] db.teams@[k];
                    let entry = r.teams@[k];
                    &&& entry.id == team.id
                    &&& entry.atk_score == atk_sum(db.flags@, db.services@, team.id)
                    &&& entry.def_score == def_sum(db.flags@, db.services@, team.id)
                    &&& entry.up_score == up_sum(db.check_ups@, db.services@, team.id)
                    &&& entry.total_score == entry.atk_score + entry.def_score + entry.up_score
                        + team.arbitrary_bonus_points
                },
            forall|k: int, l: int|
                0 <= k < l < r.ticks@.len() ==> r.ticks@[k].number > r.ticks@[l].number,
            forall|k: int|
                0 <= k < r.ticks@.len() ==> closed_tick_exists(
                    db.flags@,
                    (#[trigger] r.ticks@[k]).number,
                    db.tick.current_tick,
                ),
            forall|k: int|
                0 <= k < r.ticks@.len() ==> (#[trigger] r.ticks@[k]).data@ == tick_rows(
                    db.flags@,
                    r.ticks@[k].number,
                ),
            forall|i: int|
                0 <= i < db.flags@.len() && !(#[trigger] db.flags@[i]).in_progress
                    && db.flags@[i].tick != db.tick.current_tick ==> exists|k: int|
                    0 <= k < r.ticks@.len() && (#[trigger] r.ticks@[k]).number == db.flags@[i].tick,
            forall|k: int, l: int|
                0 <= k < l < r.checks@.len() ==> r.checks@[k].number < r.checks@[l].number,
            forall|k: int|
                0 <= k < r.checks@.len() ==> closed_check_exists(
                    db.check_ups@,
                    (#[trigger] r.checks@[k]).number,
                ),
            forall|k: int|
                0 <= k < r.checks@.len() ==> (#[trigger] r.checks@[k]).data@ == check_rows(
                    db.check_ups@,
                    r.checks@[k].number,
                ),
            forall|i: int|
                0 <= i < db.check_ups@.len() && !(#[trigger] db.check_ups@[i]).in_progress
                    ==> exists|k: int|
                    0 <= k < r.checks@.len() && (#[trigger] r.checks@[k]).number
                        == db.check_ups@[i].id,
    {
        let round_start_ago = now - db.tick.start_time;
        let shown_length = round_length + delay;
        let remaining_time = db.tick.start_time + (shown_length as i64) - now;

        let mut teams: Vec<SummaryEntry> = Vec::new();
        let mut t: usize = 0;
        while t < db.teams.len()
            invariant
                t <= db.teams@.len(),
                teams@.len() == t,
                forall|k: int|
                    0 <= k < t ==> {
                        let team = #[trigger] db.teams@[k];
                        let entry = teams@[k];
                        &&& entry.id == team.id
                        &&& entry.atk_score == atk_sum(db.flags@, db.services@, team.id)
                        &&& entry.def_score == def_sum(db.flags@, db.services@, team.id)
                        &&& entry.up_score == up_sum(db.check_ups@, db.services@, team.id)
                        &&& entry.total_score == entry.atk_score + entry.def_score + entry.up_score
                            + team.arbitrary_bonus_points
                    },
            decreases db.teams@.len() - t,
        {
            let team = db.teams[t];
            let entry = team_summary(&db.flags, &db.check_ups, &db.services, &team);
            teams.push(entry);
            t = t + 1;
        }

        let tick_numbers = closed_tick_numbers(&db.flags, db.tick.current_tick);
        let mut ticks: Vec<TickEntry> = Vec::new();
        let mut k: usize = 0;
        while k < tick_numbers.len()
            invariant
                k <= tick_numbers@.len(),
                ticks@.len() == k,
                forall|a: int| 0 <= a < k ==> (#[trigger] ticks@[a]).number == tick_numbers@[a],
                forall|a: int|
                    0 <= a < k ==> (#[trigger] ticks@[a]).data@ == tick_rows(
                        db.flags@,
                        tick_numbers@[a],
                    ),
            decreases tick_numbers@.len() - k,
        {
            let n = tick_numbers[k];
            let data = rows_at_tick(&db.flags, n);
            ticks.push(TickEntry { number: n, data });
            k = k + 1;
        }

        let check_numbers = closed_check_numbers(&db.check_ups);
        let mut checks: Vec<UptimeEntry> = Vec::new();
        let mut c: usize = 0;
        while c < check_numbers.len()
            invariant
                c <= check_numbers@.len(),
                checks@.len() == c,
                forall|a: int| 0 <= a < c ==> (#[trigger] checks@[a]).number == check_numbers@[a],
                forall|a: int|
                    0 <= a < c ==> (#[trigger] checks@[a]).data@ == check_rows(
                        db.check_ups@,
                        check_numbers@[a],
                    ),
            decreases check_numbers@.len() - c,
        {
            let n = check_numbers[c];
            let data = rows_at_check(&db.check_ups, n);
            checks.push(UptimeEntry { number: n, data });
            c = c + 1;
        }

        let r = ScoreboardContext {
            round_start_ago,
            round_length: shown_length,
            remaining_time,
            teams,
            ticks,
            checks,
        };
        proof {
            assert forall|i: int|
                0 <= i < db.flags@.len() && !(#[trigger] db.flags@[i]).in_progress
                    && db.flags@[i].tick != db.tick.current_tick implies exists|k2: int|
                0 <= k2 < r.ticks@.len() && (#[trigger] r.ticks@[k2]).number
                    == db.flags@[i].tick by {
                assert(tick_numbers@.contains(db.flags@[i].tick));
                let k2 = choose|k2: int|
                    0 <= k2 < tick_numbers@.len() && tick_numbers@[k2] == db.flags@[i].tick;
                assert(r.ticks@[k2].number == db.flags@[i].tick);
            }
            assert forall|i: int|
                0 <= i < db.check_ups@.len() && !(#[trigger] db.check_ups@[i]).in_progress implies
                exists|k2: int|
                0 <= k2 < r.checks@.len() && (#[trigger] r.checks@[k2]).number
                    == db.check_ups@[i].id by {
                assert(check_numbers@.contains(db.check_ups@[i].id));
                let k2 = choose|k2: int|
                    0 <= k2 < check_numbers@.len() && check_numbers@[k2] == db.check_ups@[i].id;
                assert(r.checks@[k2].number == db.check_ups@[i].id);
            }
        }
        r
    }
}

} // verus!
