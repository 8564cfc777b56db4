//! Helpers of the check-up loop: the log directories its sub-tasks
//! write under.
//!
//! The loop itself is outside the library; it takes these paths and
//! the store transitions of `game` and `db`.

use vstd::prelude::*;
use vstd::string::StringExecFns;

use crate::utils::padded_dec_chars;

verus! {

/// `<log>/check_up/team_<id>/<service>`, the id zero-padded to two
/// digits.
pub open spec fn check_up_log_dir_chars(log: Seq<char>, team_id: int, service: Seq<char>) -> Seq<
    char,
> {
    log + "/check_up/team_"@ + padded_dec_chars(team_id, 2) + "/"@ + service
}

/// The log directory of one `check_up` invocation.
pub fn check_up_log_dir(log_directory: &String, team_id: i32, service: &String) -> (r: String)
    requires
        team_id >= 0,
    ensures
        r@ == check_up_log_dir_chars(log_directory@, team_id as int, service@),
{
    let mut s = log_directory.clone();
    s.append("/check_up/team_");
    let team_str = crate::utils::zero_padded_u64(team_id as u64, 2);
    s.append(team_str.as_str());
    s.append("/");
    s.append(service.as_str());
    proof {
        assert(s@ =~= check_up_log_dir_chars(log_directory@, team_id as int, service@));
    }
    s
}

} // verus!
