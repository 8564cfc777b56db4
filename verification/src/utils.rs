//! Small shared helpers: second counts, round pacing arithmetic, and
//! decimal rendering of the integers that argv lists and flag payloads
//! carry.

use vstd::prelude::*;
use vstd::string::StringExecFns;

verus! {

/// The decimal digit character for a value below ten.
pub open spec fn dec_digit(d: int) -> char {
    if d == 0 {
        '0'
    } else if d == 1 {
        '1'
    } else if d == 2 {
        '2'
    } else if d == 3 {
        '3'
    } else if d == 4 {
        '4'
    } else if d == 5 {
        '5'
    } else if d == 6 {
        '6'
    } else if d == 7 {
        '7'
    } else if d == 8 {
        '8'
    } else {
        '9'
    }
}

/// The decimal rendering of a nonnegative integer, most significant
/// digit first, without leading zeros.
pub open spec fn dec_chars(n: int) -> Seq<char>
    decreases n,
{
    if n < 10 {
        seq![dec_digit(n)]
    } else {
        dec_chars(n / 10).push(dec_digit(n % 10))
    }
}

/// The decimal rendering of an integer, with a sign when negative.
pub open spec fn int_chars(n: int) -> Seq<char> {
    if n < 0 {
        seq!['-'] + dec_chars(-n)
    } else {
        dec_chars(n)
    }
}

/// The one-character string of a decimal digit.
pub(crate) fn digit_str(d: u64) -> (r: &'static str)
    requires
        d < 10,
    ensures
        r@ == seq![dec_digit(d as int)],
{
    proof {
        reveal_strlit("0");
        reveal_strlit("1");
        reveal_strlit("2");
        reveal_strlit("3");
        reveal_strlit("4");
        reveal_strlit("5");
        reveal_strlit("6");
        reveal_strlit("7");
        reveal_strlit("8");
        reveal_strlit("9");
    }
    let r = match d {
        0 => "0",
        1 => "1",
        2 => "2",
        3 => "3",
        4 => "4",
        5 => "5",
        6 => "6",
        7 => "7",
        8 => "8",
        _ => "9",
    };
    proof {
        assert(r@ =~= seq![dec_digit(d as int)]);
    }
    r
}

/// Append the decimal rendering of `n`.
fn push_u64_dec(s: &mut String, n: u64)
    ensures
        final(s)@ == old(s)@ + dec_chars(n as int),
    decreases n,
{
    let ghost entry = s@;
    if n >= 10 {
        push_u64_dec(s, n / 10);
    }
    let d = digit_str(n % 10);
    s.append(d);
    proof {
        if n < 10 {
            assert(entry + seq![dec_digit(n as int)] =~= s@);
        } else {
            assert((entry + dec_chars(n as int / 10)) + seq![dec_digit(n as int % 10)] =~= entry
                + dec_chars(n as int / 10).push(dec_digit(n as int % 10)));
        }
    }
}

/// The decimal string of an unsigned count.
pub fn u64_to_string(n: u64) -> (r: String)
    ensures
        r@ == dec_chars(n as int),
{
    let mut s = String::new();
    push_u64_dec(&mut s, n);
    proof {
        assert(Seq::<char>::empty() + dec_chars(n as int) =~= dec_chars(n as int));
    }
    s
}

/// The decimal string of a signed identifier or round number.
pub fn i32_to_string(n: i32) -> (r: String)
    ensures
        r@ == int_chars(n as int),
{
    if n >= 0 {
        u64_to_string(n as u64)
    } else {
        let wide: i64 = n as i64;
        let mag: u64 = (-wide) as u64;
        let mut s = String::new();
        s.append("-");
        proof {
            reveal_strlit("-");
            assert(Seq::<char>::empty() + "-"@ =~= seq!['-']);
        }
        push_u64_dec(&mut s, mag);
        proof {
            assert(seq!['-'] + dec_chars(mag as int) =~= int_chars(n as int));
        }
        s
    }
}

/// The decimal rendering padded with leading zeros up to `width`
/// characters; a number with more digits keeps them all.
pub open spec fn padded_dec_chars(n: int, width: int) -> Seq<char> {
    if dec_chars(n).len() >= width {
        dec_chars(n)
    } else {
        Seq::new((width - dec_chars(n).len()) as nat, |i: int| '0') + dec_chars(n)
    }
}

/// Powers of ten.
pub open spec fn pow10(k: nat) -> int
    decreases k,
{
    if k == 0 {
        1
    } else {
        10 * pow10((k - 1) as nat)
    }
}

/// A number below the k-th power of ten has at most k digits.
proof fn lemma_dec_chars_len_bound(n: int, k: nat)
    requires
        1 <= k,
        0 <= n < pow10(k),
    ensures
        dec_chars(n).len() <= k,
    decreases k,
{
    if n >= 10 {
        assert(pow10(k) == 10 * pow10((k - 1) as nat));
        lemma_dec_chars_len_bound(n / 10, (k - 1) as nat);
    }
}

/// How many digits the decimal rendering has; never more than twenty
/// for a 64-bit number.
fn num_digits(n: u64) -> (r: usize)
    ensures
        r == dec_chars(n as int).len(),
        r <= 20,
    decreases n,
{
    proof {
        reveal_with_fuel(pow10, 21);
        assert(pow10(20) == 0x56bc75e2d63100000);
        lemma_dec_chars_len_bound(n as int, 20);
    }
    if n < 10 {
        1
    } else {
        let rest = num_digits(n / 10);
        assert(dec_chars(n as int) == dec_chars(n as int / 10).push(dec_digit(n as int % 10)));
        rest + 1
    }
}

/// The decimal string of `n`, zero-padded to at least `width`
/// characters, as round and team numbers appear in log paths.
#[verifier::loop_isolation(false)]
pub fn zero_padded_u64(n: u64, width: usize) -> (r: String)
    ensures
        r@ == padded_dec_chars(n as int, width as int),
{
    let digits = num_digits(n);
    let mut s = String::new();
    let mut k: usize = 0;
    let pad: usize = if digits >= width {
        0
    } else {
        width - digits
    };
    while k < pad
        invariant
            k <= pad,
            s@ == Seq::new(k as nat, |i: int| '0'),
        decreases pad - k,
    {
        s.append("0");
        proof {
            reveal_strlit("0");
            assert(s@ =~= Seq::new((k + 1) as nat, |i: int| '0'));
        }
        k = k + 1;
    }
    push_u64_dec(&mut s, n);
    proof {
        assert(s@ =~= padded_dec_chars(n as int, width as int));
    }
    s
}

/// The dotted-quad rendering of an IPv4 address held as its 32-bit
/// value, most significant octet first.
pub open spec fn ipv4_chars(ip: u32) -> Seq<char> {
    dec_chars((ip >> 24) as int) + seq!['.'] + dec_chars(((ip >> 16) & 0xff) as int) + seq!['.']
        + dec_chars(((ip >> 8) & 0xff) as int) + seq!['.'] + dec_chars((ip & 0xff) as int)
}

/// The dotted-quad string of an IPv4 address, as checker argv lists
/// carry the target host.
pub fn ipv4_string(ip: u32) -> (r: String)
    ensures
        r@ == ipv4_chars(ip),
{
    let mut s = String::new();
    push_u64_dec(&mut s, (ip >> 24) as u64);
    s.append(".");
    push_u64_dec(&mut s, ((ip >> 16) & 0xff) as u64);
    s.append(".");
    push_u64_dec(&mut s, ((ip >> 8) & 0xff) as u64);
    s.append(".");
    push_u64_dec(&mut s, (ip & 0xff) as u64);
    proof {
        reveal_strlit(".");
        assert("."@ =~= seq!['.']);
        assert(s@ =~= ipv4_chars(ip));
    }
    s
}

/// An integer number of seconds.
#[derive(Clone, Copy, PartialEq, Eq, Structural, Debug)]
pub struct Seconds(pub u64);

impl Seconds {
    /// The count itself.
    pub fn as_secs(&self) -> (r: u64)
        ensures
            r == self.0,
    {
        self.0
    }
}

/// How long a loop still has to sleep to hit its absolute deadline:
/// the round length minus the time the fan-out already took, and zero
/// once the fan-out overran the round.  Scheduling against the
/// deadline this way keeps successive round starts at least the round
/// length apart without accumulating drift.
pub fn remaining_sleep(round_length: u64, elapsed: u64) -> (r: u64)
    ensures
        r == if elapsed >= round_length {
            0u64
        } else {
            (round_length - elapsed) as u64
        },
        elapsed + r >= round_length,
{
    if elapsed >= round_length {
        0
    } else {
        round_length - elapsed
    }
}

} // verus!
