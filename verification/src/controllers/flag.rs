//! The submission controller: atomically transfer ownership of a flag
//! to a submitting team.

use vstd::prelude::*;

use crate::db::{Db, DbError};
use crate::models::Flag;

verus! {

/// Why a submission was refused.  The row is left untouched in every
/// refused case.
#[derive(Clone, Copy, PartialEq, Eq, Structural, Debug)]
pub enum SubmitError {
    /// No flag row carries the submitted token string.
    Unknown,
    /// The flag has already been claimed by some team.
    AlreadyClaimed,
    /// A team may not claim its own flag.
    SelfFlag,
    /// The flag row is not finalized yet.
    InProgress,
}

/// Whether some flag row carries the given token string.
pub open spec fn has_flag_string(flags: Seq<Flag>, fs: Seq<char>) -> bool {
    exists|i: int| 0 <= i < flags.len() && (#[trigger] flags[i]).flag@ == fs
}

/// Whether `i` is the first index whose row carries the token string.
pub open spec fn is_first_flag_match(flags: Seq<Flag>, fs: Seq<char>, i: int) -> bool {
    &&& 0 <= i < flags.len()
    &&& flags[i].flag@ == fs
    &&& forall|j: int| 0 <= j < i ==> (#[trigger] flags[j]).flag@ != fs
}

/// The first index whose row carries the token string; meaningful only
/// when one exists.
pub open spec fn first_flag_match(flags: Seq<Flag>, fs: Seq<char>) -> int {
    choose|i: int| is_first_flag_match(flags, fs, i)
}

/// What a submission of the token string `fs` by `team_id` answers.
pub open spec fn submit_outcome(flags: Seq<Flag>, team_id: int, fs: Seq<char>) -> Result<
    (),
    SubmitError,
> {
    if !has_flag_string(flags, fs) {
        Err(SubmitError::Unknown)
    } else {
        let row = flags[first_flag_match(flags, fs)];
        if row.claimed_by is Some {
            Err(SubmitError::AlreadyClaimed)
        } else if row.team_id == team_id {
            Err(SubmitError::SelfFlag)
        } else if row.in_progress {
            Err(SubmitError::InProgress)
        } else {
            Ok(())
        }
    }
}

/// The flag table after a successful submission: the first row that
/// carries the token string is claimed by `team_id`, every other row
/// is untouched.
pub open spec fn submit_applied(flags: Seq<Flag>, team_id: int, fs: Seq<char>) -> Seq<Flag> {
    let i = first_flag_match(flags, fs);
    flags.update(i, Flag { claimed_by: Some(team_id as i32), ..flags[i] })
}

/// The first index is unique.
proof fn lemma_first_match_unique(flags: Seq<Flag>, fs: Seq<char>, i: int, j: int)
    requires
        is_first_flag_match(flags, fs, i),
        is_first_flag_match(flags, fs, j),
    ensures
        i == j,
{
}

/// Atomically transfer ownership of the flag whose token string equals
/// `flag`.  The lookup and every check run against the same store
/// state, as one transaction: between two submissions of the same
/// string, whichever is applied first wins and the other is refused.
pub fn submit(db: &mut Db, team_id: i32, flag: &String) -> (r: Result<(), SubmitError>)
    requires
        old(db).wf(),
    ensures
        final(db).wf(),
        r == submit_outcome(old(db).flags@, team_id as int, flag@),
        r is Ok ==> final(db).flags@ == submit_applied(old(db).flags@, team_id as int, flag@),
        r is Err ==> *final(db) == *old(db),
        final(db).teams@ == old(db).teams@,
        final(db).services@ == old(db).services@,
        final(db).check_ups@ == old(db).check_ups@,
        final(db).tick == old(db).tick,
{
    let looked_up = db.lookup_flag(flag);
    match looked_up {
        Err(_) => Err(SubmitError::Unknown),
        Ok(row) => {
            proof {
                let i = choose|i: int|
                    {
                        &&& 0 <= i < db.flags@.len()
                        &&& row == db.flags@[i]
                        &&& db.flags@[i].flag@ == flag@
                        &&& forall|j: int| 0 <= j < i ==> (#[trigger] db.flags@[j]).flag@ != flag@
                    };
                assert(is_first_flag_match(db.flags@, flag@, i));
                lemma_first_match_unique(db.flags@, flag@, i, first_flag_match(db.flags@, flag@));
            }
            let claimed = db.claim_flag(&row, team_id);
            proof {
                let i = first_flag_match(old(db).flags@, flag@);
                assert(crate::db::flag_has_key(
                    old(db).flags@[i],
                    row.tick as int,
                    row.team_id as int,
                    row.service_name@,
                ));
            }
            match claimed {
                Ok(()) => Ok(()),
                Err(DbError::AlreadyClaimed) => Err(SubmitError::AlreadyClaimed),
                Err(DbError::SelfFlag) => Err(SubmitError::SelfFlag),
                Err(DbError::InProgress) => Err(SubmitError::InProgress),
                Err(_) => Err(SubmitError::Unknown),
            }
        },
    }
}

/// A first match exists whenever any match does.
proof fn lemma_first_match_exists(flags: Seq<Flag>, fs: Seq<char>)
    requires
        has_flag_string(flags, fs),
    ensures
        is_first_flag_match(flags, fs, first_flag_match(flags, fs)),
    decreases flags.len(),
{
    if flags[0].flag@ == fs {
        assert(is_first_flag_match(flags, fs, 0));
    } else {
        let tail = flags.drop_first();
        let w = choose|i: int| 0 <= i < flags.len() && (#[trigger] flags[i]).flag@ == fs;
        assert(tail[w - 1].flag@ == fs);
        lemma_first_match_exists(tail, fs);
        let it = first_flag_match(tail, fs);
        assert forall|j: int| 0 <= j < it + 1 implies (#[trigger] flags[j]).flag@ != fs by {
            if j > 0 {
                assert(tail[j - 1].flag@ != fs);
            }
        }
        assert(is_first_flag_match(flags, fs, it + 1));
    }
}

/// Claim atomicity: once a submission of a token string has succeeded,
/// every later submission of the same string — by any team — is
/// refused with `AlreadyClaimed`, and the claim on the row stands:
/// it records the first successful submitter.
pub proof fn lemma_submit_at_most_one(flags: Seq<Flag>, t1: int, t2: int, fs: Seq<char>)
    requires
        submit_outcome(flags, t1, fs) is Ok,
    ensures
        submit_outcome(submit_applied(flags, t1, fs), t2, fs) == Err::<(), SubmitError>(
            SubmitError::AlreadyClaimed,
        ),
        submit_applied(flags, t1, fs)[first_flag_match(flags, fs)].claimed_by == Some(t1 as i32),
{
    lemma_first_match_exists(flags, fs);
    let i = first_flag_match(flags, fs);
    let updated = submit_applied(flags, t1, fs);
    assert(updated[i].flag@ == fs);
    assert(is_first_flag_match(updated, fs, i));
    lemma_first_match_exists(updated, fs);
    lemma_first_match_unique(updated, fs, i, first_flag_match(updated, fs));
}

} // verus!
