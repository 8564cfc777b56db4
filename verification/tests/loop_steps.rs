use gameserver::config::{Config, TeamConfig};
use gameserver::db::Db;
use gameserver::game::{
    jitter_seconds, record_check_up, record_defense, record_set_flag, GameServer,
};
use gameserver::key::generate_flag;
use gameserver::service::{Service, ServiceConfig};
use gameserver::util::{conclude_run, RunEvent, TimeoutCommandError};

fn test_config() -> Config {
    Config {
        flag_period: 30,
        check_period: 10,
        delay: 1,
        timeout_sec: 2,
        teams: vec![
            TeamConfig { id: 1, ip: 0x0a000001 },
            TeamConfig { id: 2, ip: 0x0a000002 },
        ],
        db: "game.db".to_string(),
        services_dir: "services".to_string(),
        ignores: vec![],
        log_directory: "logs".to_string(),
        bind_addr: "0.0.0.0:8080".to_string(),
        secret_key: "k".to_string(),
    }
}

fn echo_catalog() -> Vec<Service> {
    vec![Service::from_parts(
        "echo".to_string(),
        ServiceConfig {
            port: 7,
            atk_score: 100,
            def_score: 50,
            up_score: 10,
            get_flag_path: None,
            set_flag_path: None,
            check_up_path: None,
        },
        2,
        "services/echo".to_string(),
    )]
}

fn ok_run(bytes: &[u8]) -> Result<Vec<u8>, TimeoutCommandError> {
    conclude_run(RunEvent::Exited { status: 0, stdout: bytes.to_vec() })
}

/// Three full flag rounds and two check rounds against stub checkers:
/// set_flag prints a handle, get_flag echoes the stored flag back, and
/// check_up always succeeds.
#[test]
fn three_rounds_with_echoing_stubs() {
    let gs = GameServer::new(test_config(), echo_catalog(), Db::bootstrap());
    let mut db = gs.db;
    let svc = "echo".to_string();
    let secret = "k".to_string();
    for round in 0..3 {
        let (tick, _) = db.get_current_tick();
        assert_eq!(tick, round);
        for team in [1, 2] {
            if tick > 0 {
                let prior = db.get_last_flag(team, &svc).unwrap();
                let outcome = ok_run(prior.flag.as_bytes());
                let verdict = record_defense(&mut db, team, &svc, &outcome);
                assert_eq!(verdict, Some(true));
            }
            let flag = generate_flag(tick, team, &svc, &secret);
            let handle = format!("id-{}-{}", tick, team);
            let outcome = ok_run(handle.as_bytes());
            record_set_flag(&mut db, tick, team, &svc, flag, &outcome, 1000 + tick as i64)
                .unwrap();
        }
        db.bump_tick(1060 + 60 * tick as i64);
    }
    assert_eq!(db.get_current_tick().0, 3);
    assert_eq!(db.flags.len(), 6);
    assert!(db.flags.iter().all(|f| !f.in_progress));
    assert!(db.flags.iter().all(|f| f.claimed_by.is_none()));
    for f in &db.flags {
        if f.tick < 2 {
            assert!(f.defended, "round {} team {}", f.tick, f.team_id);
        } else {
            // the last round's flags were never retrieved
            assert!(!f.defended);
        }
        assert_eq!(f.flag_id, Some(format!("id-{}-{}", f.tick, f.team_id)));
    }
    // two check rounds, everything up
    for check in 0..2 {
        let n = db.get_current_check();
        assert_eq!(n, check);
        for team in [1, 2] {
            let outcome = ok_run(b"");
            record_check_up(&mut db, n, 2000 + n as i64, team, &svc, &outcome).unwrap();
        }
        db.bump_checks();
    }
    assert_eq!(db.check_ups.len(), 4);
    assert!(db.check_ups.iter().all(|c| c.up && !c.in_progress));
}

/// One team's set_flag exits nonzero: its row still exists, with no
/// handle, and the next round can still score its defense.
#[test]
fn failed_set_flag_still_plants_the_row() {
    let mut db = Db::bootstrap();
    let svc = "echo".to_string();
    let secret = "k".to_string();
    // tick 0 and 1 go through; at tick 2 team 2's set_flag exits 1
    for tick in 0..3 {
        for team in [1, 2] {
            if tick > 0 {
                let prior = db.get_last_flag(team, &svc).unwrap();
                let outcome = ok_run(prior.flag.as_bytes());
                record_defense(&mut db, team, &svc, &outcome);
            }
            let flag = generate_flag(tick, team, &svc, &secret);
            let outcome = if tick == 2 && team == 2 {
                conclude_run(RunEvent::Exited { status: 1, stdout: b"boom".to_vec() })
            } else {
                ok_run(b"handle")
            };
            record_set_flag(&mut db, tick, team, &svc, flag, &outcome, 100).unwrap();
        }
        db.bump_tick(200 + tick as i64);
    }
    let broken: Vec<_> = db.flags.iter().filter(|f| f.tick == 2 && f.team_id == 2).collect();
    assert_eq!(broken.len(), 1);
    assert_eq!(broken[0].flag_id, None);
    assert!(!broken[0].in_progress);
    // the flag string is still stored, so round 3's get_flag can defend it
    let prior = db.get_last_flag(2, &svc).unwrap();
    assert_eq!(prior.tick, 2);
    let outcome = ok_run(prior.flag.as_bytes());
    assert_eq!(record_defense(&mut db, 2, &svc, &outcome), Some(true));
    let defended_row = db.get_last_flag(2, &svc).unwrap();
    assert!(defended_row.defended);
    // every other row kept its handle
    assert!(db
        .flags
        .iter()
        .filter(|f| !(f.tick == 2 && f.team_id == 2))
        .all(|f| f.flag_id.is_some()));
}

/// A check-up that times out is recorded as down; the other team's
/// sub-task is untouched.
#[test]
fn timed_out_check_up_counts_as_down() {
    let mut db = Db::bootstrap();
    let svc = "echo".to_string();
    let slow = conclude_run(RunEvent::TimedOut);
    assert_eq!(slow, Err(TimeoutCommandError::Timeout));
    record_check_up(&mut db, 0, 100, 1, &svc, &slow).unwrap();
    record_check_up(&mut db, 0, 100, 2, &svc, &ok_run(b"")).unwrap();
    db.bump_checks();
    assert_eq!(db.check_ups.len(), 2);
    let t1 = db.check_ups.iter().find(|c| c.team_id == 1).unwrap();
    let t2 = db.check_ups.iter().find(|c| c.team_id == 2).unwrap();
    assert!(!t1.up);
    assert!(t2.up);
}

/// A crash in mid fan-out leaves open rows; the restart removes them,
/// keeps the tick, and the round is replanted.
#[test]
fn restart_clears_the_interrupted_round() {
    let gs = GameServer::new(test_config(), echo_catalog(), Db::bootstrap());
    let mut db = gs.db;
    let svc = "echo".to_string();
    let secret = "k".to_string();
    // a completed round
    for team in [1, 2] {
        let flag = generate_flag(0, team, &svc, &secret);
        record_set_flag(&mut db, 0, team, &svc, flag, &ok_run(b"h"), 100).unwrap();
    }
    db.bump_tick(160);
    // an interrupted fan-out: one row planted, never finalized, no bump
    let flag = generate_flag(1, 1, &svc, &secret);
    record_set_flag(&mut db, 1, 1, &svc, flag, &ok_run(b"h"), 200).unwrap();
    assert!(db.flags.iter().any(|f| f.in_progress));
    let tick_before = db.get_current_tick().0;

    // the process dies and comes back: same store, same startup path
    let restarted = GameServer::new(test_config(), echo_catalog(), db);
    let mut db = restarted.db;
    assert_eq!(db.get_current_tick().0, tick_before);
    assert_eq!(db.flags.len(), 2);
    assert!(db.flags.iter().all(|f| !f.in_progress));
    // the interrupted round replants cleanly at the same tick
    let flag = generate_flag(1, 1, &svc, &secret);
    assert!(record_set_flag(&mut db, 1, 1, &svc, flag, &ok_run(b"h"), 300).is_ok());
}

/// Startup is idempotent: a second run against the same populated
/// store observes the same counters and deletes nothing.
#[test]
fn startup_twice_changes_nothing_more() {
    let gs = GameServer::new(test_config(), echo_catalog(), Db::bootstrap());
    let mut db = gs.db;
    let svc = "echo".to_string();
    record_set_flag(&mut db, 0, 1, &svc, "flag{x}".to_string(), &ok_run(b""), 100).unwrap();
    db.bump_tick(160);
    let once = GameServer::new(test_config(), echo_catalog(), db);
    let tick_once = once.db.get_current_tick();
    let check_once = once.db.get_current_check();
    let flags_once = once.db.flags.len();
    let twice = GameServer::new(test_config(), echo_catalog(), once.db);
    assert_eq!(twice.db.get_current_tick(), tick_once);
    assert_eq!(twice.db.get_current_check(), check_once);
    assert_eq!(twice.db.flags.len(), flags_once);
    assert_eq!(twice.db.teams.len(), 2);
    assert_eq!(twice.db.services.len(), 1);
}

#[test]
fn jitter_respects_the_bound() {
    assert_eq!(jitter_seconds(0), 0);
    for _ in 0..32 {
        assert!(jitter_seconds(1) < 1);
        assert!(jitter_seconds(5) < 5);
    }
}
