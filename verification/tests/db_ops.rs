use gameserver::db::{Db, DbError};
use gameserver::models::{Flag, NewFlag, Service};

fn new_flag(tick: i32, team_id: i32, service_name: &str, flag: &str) -> NewFlag {
    NewFlag {
        tick,
        team_id,
        service_name: service_name.to_string(),
        flag: flag.to_string(),
        flag_id: None,
    }
}

fn echo_service() -> Service {
    Service {
        name: "echo".to_string(),
        port: 7,
        atk_score: 100,
        def_score: 50,
        up_score: 10,
    }
}

#[test]
fn bootstrap_starts_at_zero() {
    let db = Db::bootstrap();
    let (tick, start) = db.get_current_tick();
    assert_eq!(tick, 0);
    assert_eq!(start, 0);
    assert_eq!(db.get_current_check(), 0);
    assert!(db.flags.is_empty());
    assert!(db.check_ups.is_empty());
}

#[test]
fn add_team_is_idempotent() {
    let mut db = Db::bootstrap();
    db.add_team(1, 0x0a000001);
    db.add_team(1, 0x0a000001);
    assert_eq!(db.teams.len(), 1);
    assert_eq!(db.teams[0].id, 1);
    assert_eq!(db.teams[0].ip, 0x0a000001);
    assert_eq!(db.teams[0].arbitrary_bonus_points, 0);
    db.add_team(2, 0x0a000002);
    assert_eq!(db.teams.len(), 2);
}

#[test]
fn add_service_is_idempotent() {
    let mut db = Db::bootstrap();
    db.add_service(echo_service());
    db.add_service(echo_service());
    assert_eq!(db.services.len(), 1);
    assert_eq!(db.services[0].name, "echo");
    assert_eq!(db.services[0].port, 7);
}

#[test]
fn insert_flag_rejects_duplicate_key() {
    let mut db = Db::bootstrap();
    assert!(db.insert_flag(new_flag(0, 1, "echo", "flag{a}"), 100).is_ok());
    let dup = db.insert_flag(new_flag(0, 1, "echo", "flag{other}"), 101);
    assert_eq!(dup, Err(DbError::Duplicate));
    assert_eq!(db.flags.len(), 1);
    let row = &db.flags[0];
    assert!(row.in_progress);
    assert!(!row.defended);
    assert!(row.claimed_by.is_none());
    assert_eq!(row.created, 100);
}

#[test]
fn insert_checkup_is_finalized_and_keyed() {
    let mut db = Db::bootstrap();
    assert!(db.insert_checkup(0, 500, 1, "echo".to_string(), true).is_ok());
    let dup = db.insert_checkup(0, 501, 1, "echo".to_string(), false);
    assert_eq!(dup, Err(DbError::Duplicate));
    assert_eq!(db.check_ups.len(), 1);
    assert!(!db.check_ups[0].in_progress);
    assert!(db.check_ups[0].up);
    assert_eq!(db.check_ups[0].timestamp, 500);
}

#[test]
fn bump_tick_finalizes_current_rows_and_advances() {
    let mut db = Db::bootstrap();
    db.insert_flag(new_flag(0, 1, "echo", "flag{a}"), 100).unwrap();
    db.insert_flag(new_flag(0, 2, "echo", "flag{b}"), 100).unwrap();
    let before = db.get_current_tick().0;
    db.bump_tick(777);
    let (tick, start) = db.get_current_tick();
    assert!(tick > before);
    assert_eq!(tick, 1);
    assert_eq!(start, 777);
    assert!(db.flags.iter().all(|f| !f.in_progress));
    assert_eq!(db.get_current_check(), 0);
}

#[test]
fn bump_checks_advances_monotonically() {
    let mut db = Db::bootstrap();
    db.insert_checkup(0, 500, 1, "echo".to_string(), true).unwrap();
    let before = db.get_current_check();
    db.bump_checks();
    assert!(db.get_current_check() > before);
    assert_eq!(db.get_current_check(), 1);
    db.bump_checks();
    assert_eq!(db.get_current_check(), 2);
    assert_eq!(db.get_current_tick().0, 0);
}

#[test]
fn clear_in_progress_removes_exactly_open_rows() {
    let mut db = Db::bootstrap();
    db.insert_flag(new_flag(0, 1, "echo", "flag{a}"), 100).unwrap();
    db.bump_tick(200);
    db.insert_flag(new_flag(1, 1, "echo", "flag{b}"), 300).unwrap();
    assert_eq!(db.flags.len(), 2);
    db.clear_in_progress();
    assert_eq!(db.flags.len(), 1);
    assert_eq!(db.flags[0].flag, "flag{a}");
    assert!(!db.flags[0].in_progress);
    // a second pass deletes nothing further
    db.clear_in_progress();
    assert_eq!(db.flags.len(), 1);
    assert_eq!(db.get_current_tick().0, 1);
}

#[test]
fn get_last_flag_returns_largest_tick() {
    let mut db = Db::bootstrap();
    db.insert_flag(new_flag(0, 1, "echo", "flag{t0}"), 100).unwrap();
    db.insert_flag(new_flag(1, 1, "echo", "flag{t1}"), 200).unwrap();
    db.insert_flag(new_flag(2, 1, "echo", "flag{t2}"), 300).unwrap();
    db.insert_flag(new_flag(3, 2, "echo", "flag{other-team}"), 400).unwrap();
    let last = db.get_last_flag(1, &"echo".to_string()).unwrap();
    assert_eq!(last.tick, 2);
    assert_eq!(last.flag, "flag{t2}");
    let missing = db.get_last_flag(9, &"echo".to_string());
    assert_eq!(missing.unwrap_err(), DbError::NotFound);
}

#[test]
fn lookup_flag_finds_by_token_string() {
    let mut db = Db::bootstrap();
    db.insert_flag(new_flag(0, 1, "echo", "flag{a}"), 100).unwrap();
    db.insert_flag(new_flag(0, 2, "echo", "flag{b}"), 100).unwrap();
    let found = db.lookup_flag(&"flag{b}".to_string()).unwrap();
    assert_eq!(found.team_id, 2);
    let missing = db.lookup_flag(&"flag{zzz}".to_string());
    assert_eq!(missing.unwrap_err(), DbError::NotFound);
}

#[test]
fn update_defense_writes_verdict_and_finalizes() {
    let mut db = Db::bootstrap();
    db.insert_flag(new_flag(0, 1, "echo", "flag{a}"), 100).unwrap();
    db.update_defense(0, 1, &"echo".to_string(), true);
    assert!(db.flags[0].defended);
    assert!(!db.flags[0].in_progress);
    // a key that matches nothing changes nothing
    db.update_defense(5, 1, &"echo".to_string(), false);
    assert!(db.flags[0].defended);
    assert_eq!(db.flags.len(), 1);
}

#[test]
fn claim_flag_errors_cover_every_refusal() {
    let mut db = Db::bootstrap();
    db.insert_flag(new_flag(0, 1, "echo", "flag{a}"), 100).unwrap();
    let open_row = db.flags[0].duplicate();
    assert_eq!(db.claim_flag(&open_row, 2), Err(DbError::InProgress));
    db.bump_tick(200);
    let row = db.flags[0].duplicate();
    assert_eq!(db.claim_flag(&row, 1), Err(DbError::SelfFlag));
    assert_eq!(db.claim_flag(&row, 2), Ok(()));
    assert_eq!(db.flags[0].claimed_by, Some(2));
    assert_eq!(db.claim_flag(&row, 3), Err(DbError::AlreadyClaimed));
    assert_eq!(db.flags[0].claimed_by, Some(2));
    let mut ghost_row = row.duplicate();
    ghost_row.tick = 9;
    assert_eq!(db.claim_flag(&ghost_row, 2), Err(DbError::NotFound));
}

#[test]
fn getters_return_whole_tables() {
    let mut db = Db::bootstrap();
    db.add_team(1, 1);
    db.add_team(2, 2);
    db.add_service(echo_service());
    db.insert_flag(new_flag(0, 1, "echo", "flag{a}"), 100).unwrap();
    db.insert_checkup(0, 500, 1, "echo".to_string(), true).unwrap();
    assert_eq!(db.get_all_teams().len(), 2);
    assert_eq!(db.get_all_services().len(), 1);
    assert_eq!(db.get_all_flags().len(), 1);
    assert_eq!(db.get_all_checkups().len(), 1);
    assert_eq!(db.get_all_flags()[0].flag, "flag{a}");
}
