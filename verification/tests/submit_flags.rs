use gameserver::controllers::flag::{submit, SubmitError};
use gameserver::db::Db;
use gameserver::models::NewFlag;

fn planted_db() -> Db {
    // two flags planted during tick 0; the bump closes that round, so
    // both rows are finalized and claimable
    let mut db = Db::bootstrap();
    db.insert_flag(
        NewFlag {
            tick: 0,
            team_id: 2,
            service_name: "echo".to_string(),
            flag: "flag{team2}".to_string(),
            flag_id: None,
        },
        100,
    )
    .unwrap();
    db.insert_flag(
        NewFlag {
            tick: 0,
            team_id: 1,
            service_name: "echo".to_string(),
            flag: "flag{team1}".to_string(),
            flag_id: None,
        },
        100,
    )
    .unwrap();
    db.bump_tick(200);
    db
}

#[test]
fn submit_claims_anothers_flag() {
    let mut db = planted_db();
    let r = submit(&mut db, 1, &"flag{team2}".to_string());
    assert_eq!(r, Ok(()));
    let row = db.lookup_flag(&"flag{team2}".to_string()).unwrap();
    assert_eq!(row.claimed_by, Some(1));
}

#[test]
fn submit_own_flag_is_refused() {
    let mut db = planted_db();
    let r = submit(&mut db, 1, &"flag{team1}".to_string());
    assert_eq!(r, Err(SubmitError::SelfFlag));
    let row = db.lookup_flag(&"flag{team1}".to_string()).unwrap();
    assert_eq!(row.claimed_by, None);
    assert!(!row.in_progress);
}

#[test]
fn submit_unknown_flag_is_refused() {
    let mut db = planted_db();
    let r = submit(&mut db, 1, &"flag{nobody}".to_string());
    assert_eq!(r, Err(SubmitError::Unknown));
}

#[test]
fn submit_open_flag_is_refused() {
    let mut db = planted_db();
    db.insert_flag(
        NewFlag {
            tick: 1,
            team_id: 3,
            service_name: "web".to_string(),
            flag: "flag{open}".to_string(),
            flag_id: None,
        },
        300,
    )
    .unwrap();
    assert!(db.flags.iter().any(|f| f.in_progress));
    let r = submit(&mut db, 1, &"flag{open}".to_string());
    assert_eq!(r, Err(SubmitError::InProgress));
}

#[test]
fn at_most_one_submission_succeeds() {
    let mut db = planted_db();
    assert_eq!(submit(&mut db, 1, &"flag{team2}".to_string()), Ok(()));
    assert_eq!(
        submit(&mut db, 3, &"flag{team2}".to_string()),
        Err(SubmitError::AlreadyClaimed)
    );
    assert_eq!(
        submit(&mut db, 1, &"flag{team2}".to_string()),
        Err(SubmitError::AlreadyClaimed)
    );
    let row = db.lookup_flag(&"flag{team2}".to_string()).unwrap();
    assert_eq!(row.claimed_by, Some(1));
}
