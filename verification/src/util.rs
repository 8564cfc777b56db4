//! Outcomes of supervised checker subprocesses.
//!
//! The process layer spawns a child, races it against its timeout and
//! kills it on expiry; it reports what it observed as a plain event.
//! The functions here judge that event: a clean exit yields the
//! trimmed captured stdout, anything else names which of the four
//! failures occurred.

use vstd::prelude::*;

verus! {

/// Why a supervised run failed.
#[derive(PartialEq, Eq, Debug)]
pub enum TimeoutCommandError {
    /// The child could not be spawned.
    SpawnFailed,
    /// The timeout expired first; the child was killed.
    Timeout,
    /// Reading the child's output failed.
    IoFailure,
    /// The child exited with a nonzero status.  Its stdout is still
    /// carried so that callers may inspect it.
    NonZeroExit { status: i32, stdout: Vec<u8> },
}

/// What the process layer observed of one supervised run.
pub enum RunEvent {
    /// The child could not be spawned.
    SpawnFailed,
    /// The timer expired before the child exited.
    TimedOut,
    /// Reading the child's output failed.
    IoFailed,
    /// The child exited with this status, having written these bytes.
    Exited { status: i32, stdout: Vec<u8> },
}

/// An ASCII whitespace byte, as stdout trimming understands it.
pub open spec fn ws_byte(b: u8) -> bool {
    b == 32 || b == 9 || b == 10 || b == 13 || b == 12
}

/// The bytes with leading whitespace removed.
pub open spec fn trim_front(s: Seq<u8>) -> Seq<u8>
    decreases s.len(),
{
    if s.len() > 0 && ws_byte(s[0]) {
        trim_front(s.drop_first())
    } else {
        s
    }
}

/// The bytes with trailing whitespace removed.
pub open spec fn trim_back(s: Seq<u8>) -> Seq<u8>
    decreases s.len(),
{
    if s.len() > 0 && ws_byte(s.last()) {
        trim_back(s.drop_last())
    } else {
        s
    }
}

/// The bytes with whitespace removed from both ends.
pub open spec fn trimmed_bytes(s: Seq<u8>) -> Seq<u8> {
    trim_back(trim_front(s))
}

/// Remove ASCII whitespace from both ends of the captured output.
#[verifier::loop_isolation(false)]
pub fn trim_bytes(s: &Vec<u8>) -> (r: Vec<u8>)
    ensures
        r@ == trimmed_bytes(s@),
{
    proof {
        assert(s@.subrange(0, s@.len() as int) =~= s@);
    }
    let mut start: usize = 0;
    while start < s.len() && is_ws(s[start])
        invariant
            start <= s@.len(),
            trim_front(s@) == trim_front(s@.subrange(start as int, s@.len() as int)),
        decreases s@.len() - start,
    {
        proof {
            let cur = s@.subrange(start as int, s@.len() as int);
            assert(cur.drop_first() =~= s@.subrange(start + 1, s@.len() as int));
        }
        start = start + 1;
    }
    proof {
        let cur = s@.subrange(start as int, s@.len() as int);
        assert(trim_front(s@) == cur);
    }
    let mut end: usize = s.len();
    while end > start && is_ws(s[end - 1])
        invariant
            start <= end <= s@.len(),
            trim_back(s@.subrange(start as int, s@.len() as int)) == trim_back(
                s@.subrange(start as int, end as int),
            ),
        decreases end,
    {
        proof {
            let cur = s@.subrange(start as int, end as int);
            assert(cur.drop_last() =~= s@.subrange(start as int, end - 1));
        }
        end = end - 1;
    }
    proof {
        let cur = s@.subrange(start as int, end as int);
        assert(trim_back(cur) == cur);
    }
    let mut out: Vec<u8> = Vec::new();
    let mut i: usize = start;
    while i < end
        invariant
            start <= i <= end,
            out@ == s@.subrange(start as int, i as int),
        decreases end - i,
    {
        proof {
            assert(s@.subrange(start as int, i + 1) =~= s@.subrange(start as int, i as int).push(
                s@[i as int],
            ));
        }
        out.push(s[i]);
        i = i + 1;
    }
    out
}

/// Whether the byte counts as whitespace for trimming.
fn is_ws(b: u8) -> (r: bool)
    ensures
        r == ws_byte(b),
{
    b == 32 || b == 9 || b == 10 || b == 13 || b == 12
}

/// The supervisor's verdict on one run: trimmed stdout when the child
/// exited cleanly, otherwise which failure occurred.  A nonzero exit
/// still hands the trimmed stdout back inside the error.
pub fn conclude_run(event: RunEvent) -> (r: Result<Vec<u8>, TimeoutCommandError>)
    ensures
        event is SpawnFailed ==> r == Err::<Vec<u8>, TimeoutCommandError>(
            TimeoutCommandError::SpawnFailed,
        ),
        event is TimedOut ==> r == Err::<Vec<u8>, TimeoutCommandError>(
            TimeoutCommandError::Timeout,
        ),
        event is IoFailed ==> r == Err::<Vec<u8>, TimeoutCommandError>(
            TimeoutCommandError::IoFailure,
        ),
        (event matches RunEvent::Exited { status, stdout } && status == 0) ==> (r matches Ok(b)
            && b@ == trimmed_bytes(event->Exited_stdout@)),
        (event matches RunEvent::Exited { status, stdout } && status != 0) ==> (r matches Err(
            TimeoutCommandError::NonZeroExit { status: st, stdout: b },
        ) && st == event->Exited_status && b@ == trimmed_bytes(event->Exited_stdout@)),
{
    match event {
        RunEvent::SpawnFailed => Err(TimeoutCommandError::SpawnFailed),
        RunEvent::TimedOut => Err(TimeoutCommandError::Timeout),
        RunEvent::IoFailed => Err(TimeoutCommandError::IoFailure),
        RunEvent::Exited { status, stdout } => {
            let trimmed = trim_bytes(&stdout);
            if status == 0 {
                Ok(trimmed)
            } else {
                Err(TimeoutCommandError::NonZeroExit { status, stdout: trimmed })
            }
        },
    }
}

} // verus!
