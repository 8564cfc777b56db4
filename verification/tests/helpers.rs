use gameserver::check_up::check_up_log_dir;
use gameserver::config::default_timeout_sec;
use gameserver::flag_io::{get_flag_log_dir, set_flag_log_dir};
use gameserver::service::{
    check_up_ok, eligible_name, get_flag_retrieved, set_flag_handle, Service, ServiceConfig,
};
use gameserver::util::{conclude_run, trim_bytes, RunEvent, TimeoutCommandError};
use gameserver::utils::{
    i32_to_string, ipv4_string, remaining_sleep, u64_to_string, zero_padded_u64, Seconds,
};

#[test]
fn trimming_strips_both_ends() {
    assert_eq!(trim_bytes(&b"  flag{x}\n".to_vec()), b"flag{x}".to_vec());
    assert_eq!(trim_bytes(&b"\t\r\n ".to_vec()), Vec::<u8>::new());
    assert_eq!(trim_bytes(&b"a b".to_vec()), b"a b".to_vec());
    assert_eq!(trim_bytes(&Vec::new()), Vec::<u8>::new());
}

#[test]
fn run_outcomes_classify_as_specified() {
    assert_eq!(
        conclude_run(RunEvent::SpawnFailed),
        Err(TimeoutCommandError::SpawnFailed)
    );
    assert_eq!(conclude_run(RunEvent::TimedOut), Err(TimeoutCommandError::Timeout));
    assert_eq!(conclude_run(RunEvent::IoFailed), Err(TimeoutCommandError::IoFailure));
    assert_eq!(
        conclude_run(RunEvent::Exited { status: 0, stdout: b" out \n".to_vec() }),
        Ok(b"out".to_vec())
    );
    assert_eq!(
        conclude_run(RunEvent::Exited { status: 3, stdout: b"oops\n".to_vec() }),
        Err(TimeoutCommandError::NonZeroExit { status: 3, stdout: b"oops".to_vec() })
    );
}

#[test]
fn get_flag_matches_only_the_exact_token() {
    let expected = "flag{x}".to_string();
    assert!(get_flag_retrieved(&Ok(b"flag{x}".to_vec()), &expected));
    assert!(!get_flag_retrieved(&Ok(b"flag{y}".to_vec()), &expected));
    assert!(!get_flag_retrieved(
        &Err(TimeoutCommandError::Timeout),
        &expected
    ));
}

#[test]
fn set_flag_handles_follow_the_output() {
    assert_eq!(set_flag_handle(&Ok(b"id-7".to_vec())), Some("id-7".to_string()));
    assert_eq!(set_flag_handle(&Ok(Vec::new())), None);
    assert_eq!(set_flag_handle(&Ok(vec![0xff, 0xfe])), None);
    assert_eq!(set_flag_handle(&Err(TimeoutCommandError::Timeout)), None);
}

#[test]
fn check_up_follows_the_exit_status() {
    assert!(check_up_ok(&Ok(Vec::new())));
    assert!(!check_up_ok(&Err(TimeoutCommandError::Timeout)));
}

#[test]
fn eligibility_skips_hidden_and_ignored_names() {
    let ignores = vec!["broken".to_string()];
    assert!(eligible_name(&"echo".to_string(), &ignores));
    assert!(!eligible_name(&".git".to_string(), &ignores));
    assert!(!eligible_name(&"broken".to_string(), &ignores));
    assert!(eligible_name(&"".to_string(), &ignores));
}

#[test]
fn entry_points_default_into_the_service_dir() {
    let svc = Service::from_parts(
        "echo".to_string(),
        ServiceConfig {
            port: 7,
            atk_score: 1,
            def_score: 2,
            up_score: 3,
            get_flag_path: Some("bin/custom_get".to_string()),
            set_flag_path: None,
            check_up_path: None,
        },
        15,
        "services/echo".to_string(),
    );
    assert_eq!(svc.get_flag_path, "bin/custom_get");
    assert_eq!(svc.set_flag_path, "services/echo/set_flag");
    assert_eq!(svc.check_up_path, "services/echo/check_up");
    let target = "10.0.0.1".to_string();
    let argv = svc.get_flag_argv(&target, &Some("id-1".to_string()));
    assert_eq!(argv, vec!["10.0.0.1", "7", "id-1"]);
    let argv = svc.get_flag_argv(&target, &None);
    assert_eq!(argv, vec!["10.0.0.1", "7"]);
    let argv = svc.set_flag_argv(&target, &"flag{x}".to_string());
    assert_eq!(argv, vec!["10.0.0.1", "7", "flag{x}"]);
    let argv = svc.check_up_argv(&target);
    assert_eq!(argv, vec!["10.0.0.1", "7"]);
}

#[test]
fn log_directories_are_zero_padded() {
    let log = "logs".to_string();
    let svc = "echo".to_string();
    assert_eq!(check_up_log_dir(&log, 7, &svc), "logs/check_up/team_07/echo");
    assert_eq!(
        get_flag_log_dir(&log, 7, 12, &svc),
        "logs/get_flag/team_07/tick_012/echo"
    );
    assert_eq!(
        set_flag_log_dir(&log, 123, 4567, &svc),
        "logs/set_flag/team_123/tick_4567/echo"
    );
}

#[test]
fn numbers_render_in_decimal() {
    assert_eq!(u64_to_string(0), "0");
    assert_eq!(u64_to_string(90210), "90210");
    assert_eq!(i32_to_string(-42), "-42");
    assert_eq!(i32_to_string(i32::MIN), "-2147483648");
    assert_eq!(zero_padded_u64(3, 3), "003");
    assert_eq!(zero_padded_u64(4567, 3), "4567");
    assert_eq!(ipv4_string(0x0a000001), "10.0.0.1");
    assert_eq!(ipv4_string(0xffffffff), "255.255.255.255");
}

#[test]
fn pacing_sleeps_to_the_deadline() {
    assert_eq!(remaining_sleep(90, 10), 80);
    assert_eq!(remaining_sleep(90, 90), 0);
    assert_eq!(remaining_sleep(90, 200), 0);
}

#[test]
fn defaults_and_seconds() {
    assert_eq!(default_timeout_sec(), 15);
    let s = Seconds(30);
    assert_eq!(s.as_secs(), 30);
}
