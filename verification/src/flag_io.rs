//! Helpers of the flag loop: the per-invocation log directories its
//! sub-tasks write under.
//!
//! The loop itself — the timer, the fan-out and the checker runs — is
//! outside the library; it takes these paths and the store transitions
//! of `game` and `db`.

use vstd::prelude::*;
use vstd::string::StringExecFns;

use crate::utils::padded_dec_chars;

verus! {

/// `<log>/get_flag/team_<id>/tick_<n>/<service>`, the id zero-padded
/// to two digits and the tick to three.
pub open spec fn get_flag_log_dir_chars(
    log: Seq<char>,
    team_id: int,
    tick: int,
    service: Seq<char>,
) -> Seq<char> {
    log + "/get_flag/team_"@ + padded_dec_chars(team_id, 2) + "/tick_"@ + padded_dec_chars(tick, 3)
        + "/"@ + service
}

/// `<log>/set_flag/team_<id>/tick_<n>/<service>`.
pub open spec fn set_flag_log_dir_chars(
    log: Seq<char>,
    team_id: int,
    tick: int,
    service: Seq<char>,
) -> Seq<char> {
    log + "/set_flag/team_"@ + padded_dec_chars(team_id, 2) + "/tick_"@ + padded_dec_chars(tick, 3)
        + "/"@ + service
}

/// The log directory of one `get_flag` invocation.
pub fn get_flag_log_dir(log_directory: &String, team_id: i32, tick: i32, service: &String) -> (r:
    String)
    requires
        team_id >= 0,
        tick >= 0,
    ensures
        r@ == get_flag_log_dir_chars(log_directory@, team_id as int, tick as int, service@),
{
    let mut s = log_directory.clone();
    s.append("/get_flag/team_");
    let team_str = crate::utils::zero_padded_u64(team_id as u64, 2);
    s.append(team_str.as_str());
    s.append("/tick_");
    let tick_str = crate::utils::zero_padded_u64(tick as u64, 3);
    s.append(tick_str.as_str());
    s.append("/");
    s.append(service.as_str());
    proof {
        assert(s@ =~= get_flag_log_dir_chars(
            log_directory@,
            team_id as int,
            tick as int,
            service@,
        ));
    }
    s
}

/// The log directory of one `set_flag` invocation.
pub fn set_flag_log_dir(log_directory: &String, team_id: i32, tick: i32, service: &String) -> (r:
    String)
    requires
        team_id >= 0,
        tick >= 0,
    ensures
        r@ == set_flag_log_dir_chars(log_directory@, team_id as int, tick as int, service@),
{
    let mut s = log_directory.clone();
    s.append("/set_flag/team_");
    let team_str = crate::utils::zero_padded_u64(team_id as u64, 2);
    s.append(team_str.as_str());
    s.append("/tick_");
    let tick_str = crate::utils::zero_padded_u64(tick as u64, 3);
    s.append(tick_str.as_str());
    s.append("/");
    s.append(service.as_str());
    proof {
        assert(s@ =~= set_flag_log_dir_chars(
            log_directory@,
            team_id as int,
            tick as int,
            service@,
        ));
    }
    s
}

} // verus!
