//! The game server: startup bookkeeping and the per-sub-task decisions
//! of the two loops.
//!
//! The loops themselves — timers, the fan-out over teams and services,
//! and the supervised checker runs — live outside the library.  What
//! each sub-task decides and writes once its checker outcome is known
//! is here, with contracts that pin the store transition.

use vstd::prelude::*;

use crate::config::{Config, TeamConfig};
use crate::db::{
    defense_applied, finalized_checkup, finalized_flag, flag_has_key, fresh_checkup_row,
    has_checkup_key, has_flag_key, has_service, has_team, same_flag_key, Db, DbError,
};
use crate::models::{CheckUp, Flag, NewFlag, Team};
use crate::service::{get_flag_retrieved, set_flag_handle, Service};
use crate::util::TimeoutCommandError;

verus! {

/// The team table after one idempotent insert.
pub open spec fn add_team_spec(teams: Seq<Team>, id: i32, ip: u32) -> Seq<Team> {
    if has_team(teams, id as int) {
        teams
    } else {
        teams.push(Team { id, arbitrary_bonus_points: 0, ip })
    }
}

/// The team table after upserting every configured team, in order.
pub open spec fn upserted_teams(teams: Seq<Team>, list: Seq<TeamConfig>) -> Seq<Team>
    decreases list.len(),
{
    if list.len() == 0 {
        teams
    } else {
        add_team_spec(upserted_teams(teams, list.drop_last()), list.last().id, list.last().ip)
    }
}

/// The database row a catalog service registers.
pub open spec fn service_row_spec(s: Service) -> crate::models::Service {
    crate::models::Service {
        name: s.name,
        port: s.config.port as i32,
        atk_score: s.config.atk_score as i32,
        def_score: s.config.def_score as i32,
        up_score: s.config.up_score as i32,
    }
}

/// The service table after one idempotent insert.
pub open spec fn add_service_spec(
    services: Seq<crate::models::Service>,
    row: crate::models::Service,
) -> Seq<crate::models::Service> {
    if has_service(services, row.name@) {
        services
    } else {
        services.push(row)
    }
}

/// The service table after registering the whole catalog, in order.
pub open spec fn upserted_services(
    services: Seq<crate::models::Service>,
    list: Seq<Service>,
) -> Seq<crate::models::Service>
    decreases list.len(),
{
    if list.len() == 0 {
        services
    } else {
        add_service_spec(
            upserted_services(services, list.drop_last()),
            service_row_spec(list.last()),
        )
    }
}

/// Whether every catalog entry keeps its port and scores within the
/// signed range of the stored rows.
pub open spec fn catalog_in_range(list: Seq<Service>) -> bool {
    forall|i: int|
        0 <= i < list.len() ==> {
            let c = (#[trigger] list[i]).config;
            &&& c.port <= i32::MAX
            &&& c.atk_score <= i32::MAX
            &&& c.def_score <= i32::MAX
            &&& c.up_score <= i32::MAX
        }
}

/// Whether index `i` holds the pair's flag row with the largest tick.
pub open spec fn is_latest_flag(flags: Seq<Flag>, team_id: i32, name: Seq<char>, i: int) -> bool {
    &&& 0 <= i < flags.len()
    &&& flags[i].team_id == team_id
    &&& flags[i].service_name@ == name
    &&& forall|j: int|
        0 <= j < flags.len() && (#[trigger] flags[j]).team_id == team_id
            && flags[j].service_name@ == name ==> flags[j].tick <= flags[i].tick
}

/// Whether the pair has any flag row.
pub open spec fn has_pair(flags: Seq<Flag>, team_id: i32, name: Seq<char>) -> bool {
    exists|i: int|
        0 <= i < flags.len() && (#[trigger] flags[i]).team_id == team_id
            && flags[i].service_name@ == name
}

/// The long-lived server state: the store, the configuration, and the
/// immutable service catalog.
pub struct GameServer {
    pub db: Db,
    pub config: Config,
    pub services: Vec<Service>,
}

impl GameServer {
    /// Start the server against a loaded store: resolve the crash
    /// recovery (drop every row still marked in progress), then
    /// idempotently register the configured teams and the catalog's
    /// services.  The tick record is read, never written, so a restart
    /// resumes at the same tick and check numbers.
    #[verifier::loop_isolation(false)]
    pub fn new(config: Config, services: Vec<Service>, db: Db) -> (r: GameServer)
        requires
            db.wf(),
            catalog_in_range(services@),
        ensures
            r.config == config,
            r.services == services,
            r.db.wf(),
            r.db.flags@ == db.flags@.filter(|f: Flag| finalized_flag(f)),
            r.db.check_ups@ == db.check_ups@.filter(|c: CheckUp| finalized_checkup(c)),
            r.db.tick == db.tick,
            r.db.teams@ == upserted_teams(db.teams@, config.teams@),
            r.db.services@ == upserted_services(db.services@, services@),
    {
        let mut store = db;
        store.clear_in_progress();
        let ghost flags1 = store.flags@;
        let ghost checks1 = store.check_ups@;
        let ghost teams0 = store.teams@;
        let ghost services0 = store.services@;

        let mut i: usize = 0;
        while i < config.teams.len()
            invariant
                i <= config.teams@.len(),
                store.wf(),
                store.flags@ == flags1,
                store.check_ups@ == checks1,
                store.services@ == services0,
                store.tick == db.tick,
                store.teams@ == upserted_teams(teams0, config.teams@.take(i as int)),
            decreases config.teams@.len() - i,
        {
            let t = config.teams[i];
            store.add_team(t.id, t.ip);
            proof {
                let cur = config.teams@.take(i + 1);
                assert(cur.drop_last() =~= config.teams@.take(i as int));
                assert(cur.last() == config.teams@[i as int]);
            }
            i = i + 1;
        }
        proof {
            assert(config.teams@.take(config.teams@.len() as int) =~= config.teams@);
        }

        let ghost teams1 = store.teams@;
        let mut j: usize = 0;
        while j < services.len()
            invariant
                j <= services@.len(),
                store.wf(),
                store.flags@ == flags1,
                store.check_ups@ == checks1,
                store.teams@ == teams1,
                store.tick == db.tick,
                store.services@ == upserted_services(services0, services@.take(j as int)),
            decreases services@.len() - j,
        {
            let row = services[j].to_row();
            store.add_service(row);
            proof {
                let cur = services@.take(j + 1);
                assert(cur.drop_last() =~= services@.take(j as int));
                assert(cur.last() == services@[j as int]);
            }
            j = j + 1;
        }
        proof {
            assert(services@.take(services@.len() as int) =~= services@);
        }

        GameServer { db: store, config, services }
    }

    /// The configuration the server was started with.
    pub fn get_config(&self) -> (r: &Config)
        ensures
            r == &self.config,
    {
        &self.config
    }

    /// The configured teams, in configuration order.
    #[verifier::loop_isolation(false)]
    pub fn get_teams(&self) -> (r: Vec<TeamConfig>)
        ensures
            r@ == self.config.teams@,
    {
        let mut out: Vec<TeamConfig> = Vec::new();
        let mut i: usize = 0;
        while i < self.config.teams.len()
            invariant
                i <= self.config.teams@.len(),
                out@ == self.config.teams@.take(i as int),
            decreases self.config.teams@.len() - i,
        {
            proof {
                crate::db::lemma_take_one_more(self.config.teams@, i as int);
            }
            out.push(self.config.teams[i]);
            i = i + 1;
        }
        proof {
            assert(self.config.teams@.take(self.config.teams@.len() as int)
                =~= self.config.teams@);
        }
        out
    }

    /// The store handle the loops write through.
    pub fn get_db(&mut self) -> (r: &mut Db)
        ensures
            *r == old(self).db,
            final(self).db == *final(r),
            final(self).config == old(self).config,
            final(self).services == old(self).services,
    {
        &mut self.db
    }
}

/// Relies on `rand::random`: a machine-random value.  Nothing is
/// promised of it; every caller's contract holds whatever comes back.
#[verifier::external_body]
fn random_u64() -> u64 {
    rand::random::<u64>()
}

/// The random sleep that decorrelates a sub-task's outgoing load: a
/// value below `delay`, or zero when no jitter is configured.
pub fn jitter_seconds(delay: u64) -> (r: u64)
    ensures
        delay > 0 ==> r < delay,
        delay == 0 ==> r == 0,
{
    if delay == 0 {
        0
    } else {
        random_u64() % delay
    }
}

/// Record one check-up sub-task: the service counts as up exactly when
/// its checker run succeeded.
pub fn record_check_up(
    db: &mut Db,
    check_number: i32,
    now: i64,
    team_id: i32,
    service_name: &String,
    outcome: &Result<Vec<u8>, TimeoutCommandError>,
) -> (r: Result<(), DbError>)
    requires
        old(db).wf(),
    ensures
        final(db).wf(),
        r is Ok <==> !has_checkup_key(
            old(db).check_ups@,
            check_number as int,
            team_id as int,
            service_name@,
        ),
        r is Ok ==> final(db).check_ups@ == old(db).check_ups@.push(
            fresh_checkup_row(check_number, now, team_id, *service_name, outcome is Ok),
        ),
        r is Err ==> *final(db) == *old(db) && r == Err::<(), DbError>(DbError::Duplicate),
        final(db).flags@ == old(db).flags@,
        final(db).teams@ == old(db).teams@,
        final(db).services@ == old(db).services@,
        final(db).tick == old(db).tick,
{
    let up = crate::service::check_up_ok(outcome);
    db.insert_checkup(check_number, now, team_id, service_name.clone(), up)
}

/// The defense step of one flag sub-task: fetch the pair's last flag,
/// decide whether the `get_flag` run returned exactly its token, and
/// write that verdict to the last flag's row.  A pair with no prior
/// flag — the first round — changes nothing.  The row at the latest
/// tick gets `defended = true` exactly when the run returned the
/// stored token, and `defended = false` on any failure or mismatch.
pub fn record_defense(
    db: &mut Db,
    team_id: i32,
    service_name: &String,
    outcome: &Result<Vec<u8>, TimeoutCommandError>,
) -> (r: Option<bool>)
    requires
        old(db).wf(),
    ensures
        final(db).wf(),
        r is Some <==> has_pair(old(db).flags@, team_id, service_name@),
        r is None ==> *final(db) == *old(db),
        forall|i: int|
            is_latest_flag(old(db).flags@, team_id, service_name@, i) ==> {
                let defended = outcome matches Ok(b) && b@ == vstd::utf8::encode_utf8(
                    old(db).flags@[i].flag@,
                );
                &&& r == Some(defended)
                &&& final(db).flags@ == old(db).flags@.update(
                    i,
                    defense_applied(old(db).flags@[i], defended),
                )
            },
        final(db).check_ups@ == old(db).check_ups@,
        final(db).teams@ == old(db).teams@,
        final(db).services@ == old(db).services@,
        final(db).tick == old(db).tick,
{
    let last = match db.get_last_flag(team_id, service_name) {
        Ok(f) => f,
        Err(_) => {
            return None;
        },
    };
    let ghost i0 = choose|i: int|
        0 <= i < db.flags@.len() && last == db.flags@[i];
    let defended = get_flag_retrieved(outcome, &last.flag);
    db.update_defense(last.tick, team_id, service_name, defended);
    proof {
        assert forall|i: int|
            is_latest_flag(old(db).flags@, team_id, service_name@, i) implies {
            let defended_spec = outcome matches Ok(b) && b@ == vstd::utf8::encode_utf8(
                old(db).flags@[i].flag@,
            );
            &&& Some(defended) == Some(defended_spec)
            &&& db.flags@ == old(db).flags@.update(
                i,
                defense_applied(old(db).flags@[i], defended_spec),
            )
        } by {
            let flags = old(db).flags@;
            assert(flags[i].tick <= last.tick);
            assert(last.tick <= flags[i].tick);
            assert(same_flag_key(flags[i0], flags[i]));
            assert(i0 == i);
            assert forall|k: int| 0 <= k < flags.len() && k != i implies !flag_has_key(
                flags[k],
                last.tick as int,
                team_id as int,
                service_name@,
            ) by {
                if flag_has_key(flags[k], last.tick as int, team_id as int, service_name@) {
                    assert(same_flag_key(flags[k], flags[i]));
                }
            }
            assert(db.flags@ =~= flags.update(
                i,
                defense_applied(flags[i], defended),
            ));
        }
    }
    Some(defended)
}

/// The planting step of one flag sub-task: derive the stored flag
/// handle from the `set_flag` run's output — its trimmed stdout when
/// the run succeeded and printed decodable text, nothing otherwise —
/// and insert the fresh row.  A failed run still inserts the row, with
/// no handle, so the flag can be scored on defense next tick.
pub fn record_set_flag(
    db: &mut Db,
    tick: i32,
    team_id: i32,
    service_name: &String,
    flag: String,
    outcome: &Result<Vec<u8>, TimeoutCommandError>,
    now: i64,
) -> (r: Result<(), DbError>)
    requires
        old(db).wf(),
    ensures
        final(db).wf(),
        r is Ok <==> !has_flag_key(old(db).flags@, tick as int, team_id as int, service_name@),
        r is Err ==> *final(db) == *old(db) && r == Err::<(), DbError>(DbError::Duplicate),
        r is Ok ==> {
            let row = final(db).flags@.last();
            &&& final(db).flags@ == old(db).flags@.push(row)
            &&& row.tick == tick
            &&& row.team_id == team_id
            &&& row.service_name@ == service_name@
            &&& row.flag == flag
            &&& row.in_progress
            &&& row.claimed_by is None
            &&& !row.defended
            &&& row.created == now
            &&& ((outcome matches Ok(b) && b@.len() > 0 && vstd::utf8::valid_utf8(b@)) ==> (
            row.flag_id matches Some(s) && s@ == vstd::utf8::decode_utf8(outcome->Ok_0@)))
            &&& !(outcome matches Ok(b) && b@.len() > 0 && vstd::utf8::valid_utf8(b@))
                ==> row.flag_id is None
        },
        final(db).check_ups@ == old(db).check_ups@,
        final(db).teams@ == old(db).teams@,
        final(db).services@ == old(db).services@,
        final(db).tick == old(db).tick,
{
    let flag_id = set_flag_handle(outcome);
    db.insert_flag(
        NewFlag { tick, team_id, service_name: service_name.clone(), flag, flag_id },
        now,
    )
}

} // verus!
