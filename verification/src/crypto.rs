//! Calls into the hashing, encoding, randomness and identifier crates, each
//! behind one trusted function whose contract says what the crate documents.

use vstd::prelude::*;

use crate::text::{is_lower_hex, is_lower, is_upper, is_digit};

verus! {

// ---------- SHA-256 ----------

/// The SHA-256 digest of a byte sequence.
pub uninterp spec fn sha256(data: Seq<u8>) -> Seq<u8>;

/// `sha2::Sha256::digest`: the SHA-256 digest of `data`. The contract names
/// the digest and states its length, 32 bytes (the output size of `Sha256`).
#[verifier::external_body]
pub(crate) fn sha256_digest(data: &[u8]) -> (d: Vec<u8>)
    ensures
        d@ == sha256(data@),
        d@.len() == 32,
{
    <sha2::Sha256 as sha2::Digest>::digest(data).to_vec()
}

// ---------- base64 (URL-safe alphabet, no padding) ----------

/// Length of the unpadded base64 encoding of `n` bytes.
pub open spec fn b64_len(n: nat) -> nat {
    (n / 3) * 4 + if n % 3 == 0 {
        0nat
    } else if n % 3 == 1 {
        2nat
    } else {
        3nat
    }
}

/// The URL-safe base64 alphabet: `A-Z a-z 0-9 - _`.
pub open spec fn b64_url_char(v: int) -> char {
    if v < 26 {
        ((v + 65) as u32) as char
    } else if v < 52 {
        ((v - 26 + 97) as u32) as char
    } else if v < 62 {
        ((v - 52 + 48) as u32) as char
    } else if v == 62 {
        '-'
    } else {
        '_'
    }
}

pub open spec fn byte_or_zero(b: Seq<u8>, i: int) -> int {
    if 0 <= i < b.len() {
        b[i] as int
    } else {
        0
    }
}

/// The 6-bit value behind output character `k`: every 3 input bytes give
/// 4 characters; missing bytes of the last group count as zero bits.
pub open spec fn b64_sextet(b: Seq<u8>, k: int) -> int {
    let g = k / 4;
    let b0 = byte_or_zero(b, 3 * g);
    let b1 = byte_or_zero(b, 3 * g + 1);
    let b2 = byte_or_zero(b, 3 * g + 2);
    if k % 4 == 0 {
        b0 / 4
    } else if k % 4 == 1 {
        (b0 % 4) * 16 + b1 / 16
    } else if k % 4 == 2 {
        (b1 % 16) * 4 + b2 / 64
    } else {
        b2 % 64
    }
}

/// Unpadded URL-safe base64 (RFC 4648 section 5, without `=`).
pub open spec fn b64_url_no_pad(b: Seq<u8>) -> Seq<char> {
    Seq::new(b64_len(b.len()), |k: int| b64_url_char(b64_sextet(b, k)))
}

/// `base64::engine::general_purpose::URL_SAFE_NO_PAD.encode`: the unpadded
/// URL-safe base64 encoding of `bytes`. `requires` leaves out inputs whose
/// encoded length overflows `usize` (where the crate panics).
#[verifier::external_body]
pub(crate) fn base64_url_no_pad(bytes: &[u8]) -> (s: String)
    requires
        b64_len(bytes@.len()) <= usize::MAX,
    ensures
        s@ == b64_url_no_pad(bytes@),
{
    <base64::engine::GeneralPurpose as base64::Engine>::encode(
        &base64::engine::general_purpose::URL_SAFE_NO_PAD,
        bytes,
    )
}

/// A character of the URL-safe base64 alphabet.
pub open spec fn is_b64_url_char(c: char) -> bool {
    is_upper(c) || is_lower(c) || is_digit(c) || c == '-' || c == '_'
}

pub proof fn lemma_b64_chars(b: Seq<u8>)
    ensures
        forall|k: int|
            0 <= k < b64_url_no_pad(b).len() ==> is_b64_url_char(#[trigger] b64_url_no_pad(b)[k]),
{
    assert forall|k: int| 0 <= k < b64_url_no_pad(b).len() implies is_b64_url_char(
        #[trigger] b64_url_no_pad(b)[k],
    ) by {
        let v = b64_sextet(b, k);
        assert(0 <= v < 64);
    }
}

// ---------- randomness ----------

/// `rand::fill` on a 32-byte buffer: 32 bytes from the thread-local
/// generator. Nothing is stated of their values, which rest on chance.
#[verifier::external_body]
pub(crate) fn random_bytes_32() -> (b: Vec<u8>)
    ensures
        b@.len() == 32,
{
    let mut buf = [0u8; 32];
    rand::fill(&mut buf);
    buf.to_vec()
}

/// `rand::random::<u8>()`: one byte from the thread-local generator. Nothing
/// is stated of its value, which rests on chance.
#[verifier::external_body]
pub(crate) fn random_u8() -> (b: u8) {
    rand::random::<u8>()
}

// ---------- UUIDv7 identifiers ----------

/// The hyphenated lowercase form of a UUID: `8-4-4-4-12` hex digits.
pub open spec fn is_hyphenated_uuid(s: Seq<char>) -> bool {
    &&& s.len() == 36
    &&& forall|i: int|
        0 <= i < 36 ==> if i == 8 || i == 13 || i == 18 || i == 23 {
            #[trigger] s[i] == '-'
        } else {
            is_lower_hex(s[i])
        }
}

/// `uuid::Uuid::now_v7()` rendered by `to_string()`. The value rests on the
/// clock and on chance; the contract states only its rendering: the
/// hyphenated lowercase form (`Display` formats a `Uuid` as `LowerHex` of its
/// hyphenated form).
#[verifier::external_body]
pub(crate) fn uuid_now_v7_string() -> (s: String)
    ensures
        is_hyphenated_uuid(s@),
{
    uuid::Uuid::now_v7().to_string()
}

} // verus!
