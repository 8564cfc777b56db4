//! The flag token generator: deterministically derive a flag string
//! from (tick, team, service, secret).
//!
//! A token has the form `flag{<payload>|hmac=<hex>}`, where the payload
//! is `tick=<tick>|team=<team>|svc=<service>` and the hex part is the
//! lower-case digest of HMAC-SHA-256 over the payload under the secret
//! key.  The HMAC construction and the hex rendering are computed and
//! proved here; only the SHA-256 compression itself is the outside
//! crate's.

use vstd::prelude::*;
use vstd::string::StrSliceExecFns;
use vstd::string::StringExecFns;
use vstd::string::StringSliceAdditionalSpecFns;

use crate::utils::int_chars;

verus! {

/// What `sha2` returns for the given bytes: a fixed 32-byte digest,
/// a function of the input alone.
pub uninterp spec fn sha256_of(bytes: Seq<u8>) -> Seq<u8>;

/// Relies on `sha2::Sha256::digest`: the SHA-256 digest of the input,
/// always 32 bytes, depending on the input bytes alone.
#[verifier::external_body]
pub(crate) fn sha256(bytes: &[u8]) -> (r: Vec<u8>)
    ensures
        r@ == sha256_of(bytes@),
        r@.len() == 32,
{
    let digest = <sha2::Sha256 as sha2::Digest>::digest(bytes);
    digest.as_slice().to_vec()
}

/// The HMAC block size of SHA-256, in bytes.
pub open spec fn spec_hmac_block() -> int {
    64
}

/// The key brought to block length: a long key is hashed first.
pub open spec fn hmac_key(key: Seq<u8>) -> Seq<u8> {
    if key.len() > spec_hmac_block() {
        sha256_of(key)
    } else {
        key
    }
}

/// The key padded to the block length with zeros and xored with the
/// given pad byte.
pub open spec fn xor_pad(key: Seq<u8>, pad: u8) -> Seq<u8> {
    Seq::new(
        spec_hmac_block() as nat,
        |i: int|
            if i < key.len() {
                key[i] ^ pad
            } else {
                pad
            },
    )
}

/// HMAC-SHA-256 of the message under the key, per the standard
/// construction: H((K' ^ opad) || H((K' ^ ipad) || m)).
pub open spec fn hmac_sha256_of(key: Seq<u8>, msg: Seq<u8>) -> Seq<u8> {
    sha256_of(
        xor_pad(hmac_key(key), 0x5c) + sha256_of(xor_pad(hmac_key(key), 0x36) + msg),
    )
}

/// The key brought to block length.
fn block_key(key: &[u8]) -> (r: Vec<u8>)
    ensures
        r@ == hmac_key(key@),
        r@.len() <= 64,
{
    if key.len() > 64 {
        sha256(key)
    } else {
        vstd::slice::slice_to_vec(key)
    }
}

/// The padded and xored key block.
#[verifier::loop_isolation(false)]
fn pad_block(key: &Vec<u8>, pad: u8) -> (r: Vec<u8>)
    requires
        key@.len() <= 64,
    ensures
        r@ == xor_pad(key@, pad),
{
    let mut out: Vec<u8> = Vec::new();
    let mut i: usize = 0;
    while i < 64
        invariant
            i <= 64,
            out@.len() == i,
            forall|k: int|
                0 <= k < i ==> out@[k] == (
                if k < key@.len() {
                    key@[k] ^ pad
                } else {
                    pad
                }),
        decreases 64 - i,
    {
        if i < key.len() {
            out.push(key[i] ^ pad);
        } else {
            out.push(pad);
        }
        i = i + 1;
    }
    proof {
        assert(out@ =~= xor_pad(key@, pad));
    }
    out
}

/// HMAC-SHA-256 of the message under the key.
pub fn hmac_sha256(key: &[u8], msg: &[u8]) -> (r: Vec<u8>)
    ensures
        r@ == hmac_sha256_of(key@, msg@),
        r@.len() == 32,
{
    let k = block_key(key);
    let ipad = pad_block(&k, 0x36);
    let opad = pad_block(&k, 0x5c);
    let mut inner: Vec<u8> = ipad;
    let mut msg_copy: Vec<u8> = vstd::slice::slice_to_vec(msg);
    inner.append(&mut msg_copy);
    let inner_digest = sha256(inner.as_slice());
    let mut outer: Vec<u8> = opad;
    let mut digest_copy: Vec<u8> = inner_digest;
    outer.append(&mut digest_copy);
    sha256(outer.as_slice())
}

/// The lower-case hex digit character for a value below sixteen.
pub open spec fn hex_digit(d: int) -> char {
    if d < 10 {
        crate::utils::dec_digit(d)
    } else if d == 10 {
        'a'
    } else if d == 11 {
        'b'
    } else if d == 12 {
        'c'
    } else if d == 13 {
        'd'
    } else if d == 14 {
        'e'
    } else {
        'f'
    }
}

/// The lower-case hex rendering of a byte string, two digits per byte.
pub open spec fn hex_chars(bytes: Seq<u8>) -> Seq<char>
    decreases bytes.len(),
{
    if bytes.len() == 0 {
        Seq::empty()
    } else {
        hex_chars(bytes.drop_last()).push(hex_digit(bytes.last() as int / 16)).push(
            hex_digit(bytes.last() as int % 16),
        )
    }
}

/// The one-character string of a lower-case hex digit.
fn hex_digit_str(d: u8) -> (r: &'static str)
    requires
        d < 16,
    ensures
        r@ == seq![hex_digit(d as int)],
{
    if d < 10 {
        crate::utils::digit_str(d as u64)
    } else {
        proof {
            reveal_strlit("a");
            reveal_strlit("b");
            reveal_strlit("c");
            reveal_strlit("d");
            reveal_strlit("e");
            reveal_strlit("f");
        }
        let r = match d {
            10 => "a",
            11 => "b",
            12 => "c",
            13 => "d",
            14 => "e",
            _ => "f",
        };
        proof {
            assert(r@ =~= seq![hex_digit(d as int)]);
        }
        r
    }
}

/// The lower-case hex string of a byte string.
#[verifier::loop_isolation(false)]
pub fn hex_string(bytes: &Vec<u8>) -> (r: String)
    ensures
        r@ == hex_chars(bytes@),
{
    let mut out = String::new();
    let mut i: usize = 0;
    while i < bytes.len()
        invariant
            i <= bytes@.len(),
            out@ == hex_chars(bytes@.take(i as int)),
        decreases bytes@.len() - i,
    {
        let ghost before = out@;
        let b = bytes[i];
        out.append(hex_digit_str(b / 16));
        out.append(hex_digit_str(b % 16));
        proof {
            let cur = bytes@.take(i + 1);
            assert(cur.drop_last() =~= bytes@.take(i as int));
            assert(cur.last() == bytes@[i as int]);
            assert(out@ =~= hex_chars(bytes@.take(i as int)).push(
                hex_digit(b as int / 16),
            ).push(hex_digit(b as int % 16)));
        }
        i = i + 1;
    }
    proof {
        assert(bytes@.take(bytes@.len() as int) =~= bytes@);
    }
    out
}

/// The canonical payload the token authenticates:
/// `tick=<tick>|team=<team>|svc=<service>`.
pub open spec fn payload_chars(tick: int, team_id: int, service_name: Seq<char>) -> Seq<char> {
    "tick="@ + int_chars(tick) + "|team="@ + int_chars(team_id) + "|svc="@ + service_name
}

/// The full token: `flag{<payload>|hmac=<hex>}` where the hex part is
/// the HMAC-SHA-256 digest of the payload bytes under the secret key.
pub open spec fn flag_token_chars(
    tick: int,
    team_id: int,
    service_name: Seq<char>,
    secret: Seq<char>,
) -> Seq<char> {
    "flag{"@ + payload_chars(tick, team_id, service_name) + "|hmac="@ + hex_chars(
        hmac_sha256_of(
            vstd::utf8::encode_utf8(secret),
            vstd::utf8::encode_utf8(payload_chars(tick, team_id, service_name)),
        ),
    ) + "}"@
}

/// Derive the flag token for (tick, team, service) under the secret
/// key.  The same inputs always give the same token; uniqueness in
/// practice comes from the tick increasing.
pub fn generate_flag(tick: i32, team_id: i32, service_name: &String, secret: &String) -> (r:
    String)
    ensures
        r@ == flag_token_chars(tick as int, team_id as int, service_name@, secret@),
{
    let mut payload = String::new();
    payload.append("tick=");
    let tick_str = crate::utils::i32_to_string(tick);
    payload.append(tick_str.as_str());
    payload.append("|team=");
    let team_str = crate::utils::i32_to_string(team_id);
    payload.append(team_str.as_str());
    payload.append("|svc=");
    payload.append(service_name.as_str());
    proof {
        assert(payload@ =~= payload_chars(tick as int, team_id as int, service_name@));
    }
    let digest = hmac_sha256(secret.as_str().as_bytes(), payload.as_str().as_bytes());
    let hex = hex_string(&digest);
    let mut out = String::new();
    out.append("flag{");
    out.append(payload.as_str());
    out.append("|hmac=");
    out.append(hex.as_str());
    out.append("}");
    proof {
        assert(out@ =~= flag_token_chars(tick as int, team_id as int, service_name@, secret@));
    }
    out
}

} // verus!
