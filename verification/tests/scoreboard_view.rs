use gameserver::controllers::flag::submit;
use gameserver::controllers::scoreboard::ScoreboardContext;
use gameserver::db::Db;
use gameserver::models::{NewFlag, Service};

fn fixture() -> Db {
    let mut db = Db::bootstrap();
    db.add_team(1, 0x0a000001);
    db.add_team(2, 0x0a000002);
    db.add_service(Service {
        name: "echo".to_string(),
        port: 7,
        atk_score: 100,
        def_score: 50,
        up_score: 10,
    });
    // tick 0: both teams planted; both defended next round
    plant(&mut db, 0, 1, "flag{t1-0}");
    plant(&mut db, 0, 2, "flag{t2-0}");
    db.bump_tick(60);
    db.update_defense(0, 1, &"echo".to_string(), true);
    db.update_defense(0, 2, &"echo".to_string(), true);
    // tick 1: planted and closed, defense written
    plant(&mut db, 1, 1, "flag{t1-1}");
    plant(&mut db, 1, 2, "flag{t2-1}");
    db.bump_tick(120);
    db.update_defense(1, 1, &"echo".to_string(), true);
    db.update_defense(1, 2, &"echo".to_string(), false);
    // two check rounds: team 1 up twice, team 2 up once
    db.insert_checkup(0, 61, 1, "echo".to_string(), true).unwrap();
    db.insert_checkup(0, 61, 2, "echo".to_string(), true).unwrap();
    db.bump_checks();
    db.insert_checkup(1, 121, 1, "echo".to_string(), true).unwrap();
    db.insert_checkup(1, 121, 2, "echo".to_string(), false).unwrap();
    db.bump_checks();
    db
}

fn plant(db: &mut Db, tick: i32, team_id: i32, flag: &str) {
    db.insert_flag(
        NewFlag {
            tick,
            team_id,
            service_name: "echo".to_string(),
            flag: flag.to_string(),
            flag_id: None,
        },
        tick as i64 * 60,
    )
    .unwrap();
}

#[test]
fn totals_follow_the_score_formula() {
    let mut db = fixture();
    // team 1 captures a team-2 flag: +100 attack, and that row stops
    // counting toward team 2's defense
    assert_eq!(submit(&mut db, 1, &"flag{t2-0}".to_string()), Ok(()));
    let ctx = ScoreboardContext::from_db(&db, 130, 90, 1);
    assert_eq!(ctx.round_start_ago, 10);
    assert_eq!(ctx.round_length, 91);
    assert_eq!(ctx.remaining_time, 120 + 91 - 130);
    assert_eq!(ctx.teams.len(), 2);
    let t1 = &ctx.teams[0];
    let t2 = &ctx.teams[1];
    assert_eq!(t1.id, 1);
    assert_eq!(t2.id, 2);
    // team 1: attack 100, defense 2 rounds * 50, uptime 2 * 10
    assert_eq!(t1.atk_score, 100);
    assert_eq!(t1.def_score, 100);
    assert_eq!(t1.up_score, 20);
    assert_eq!(t1.total_score, 220);
    // team 2: no captures; its defended tick-0 row was captured, so it
    // no longer counts toward defense, and its tick-1 row was not
    // defended; one up check
    assert_eq!(t2.atk_score, 0);
    assert_eq!(t2.def_score, 0);
    assert_eq!(t2.up_score, 10);
    assert_eq!(t2.total_score, 10);
}

#[test]
fn bonus_points_enter_the_total() {
    let mut db = fixture();
    db.teams[0].arbitrary_bonus_points = 7;
    db.teams[1].arbitrary_bonus_points = -3;
    let ctx = ScoreboardContext::from_db(&db, 130, 90, 1);
    // no captures in the bare fixture: attack 0, defense 100, uptime 20
    assert_eq!(ctx.teams[0].total_score, 0 + 100 + 20 + 7);
    assert_eq!(ctx.teams[1].total_score, 0 + 50 + 10 - 3);
}

#[test]
fn grids_exclude_current_tick_and_sort_rounds() {
    let db = fixture();
    let ctx = ScoreboardContext::from_db(&db, 125, 90, 1);
    // ticks 0 and 1 are closed; the current tick (2) has no rows
    assert_eq!(ctx.ticks.len(), 2);
    assert_eq!(ctx.ticks[0].number, 1);
    assert_eq!(ctx.ticks[1].number, 0);
    assert_eq!(ctx.ticks[0].data.len(), 2);
    assert_eq!(ctx.ticks[1].data.len(), 2);
    // checks oldest first
    assert_eq!(ctx.checks.len(), 2);
    assert_eq!(ctx.checks[0].number, 0);
    assert_eq!(ctx.checks[1].number, 1);
    assert_eq!(ctx.checks[0].data.len(), 2);
}

#[test]
fn grid_drops_rows_of_the_open_round() {
    let mut db = fixture();
    plant(&mut db, 2, 1, "flag{t1-2}");
    let ctx = ScoreboardContext::from_db(&db, 125, 90, 1);
    // the fresh row sits at the current tick and is open: not shown
    assert_eq!(ctx.ticks.len(), 2);
    assert!(ctx.ticks.iter().all(|e| e.number != 2));
}
