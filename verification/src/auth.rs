//! Account registration and token rules: secret hashing, opaque token
//! generation, the active-token cap, issuing and revoking.

use vstd::prelude::*;
use vstd::string::StringSliceAdditionalSpecFns;
use vstd::utf8::encode_utf8;

use crate::crypto::{
    b64_len, b64_url_no_pad, base64_url_no_pad, random_bytes_32, sha256, sha256_digest,
    lemma_b64_chars, is_b64_url_char,
};
use crate::errors::{ApiError, ErrorCode};
use crate::protocol::{RevokeTokenResponse, TokenInfo};
use crate::text::{
    hex_char_at, hex_lower_spec, nibble_lower, push_char, push_str, trim, trim_str,
};

verus! {

/// At most this many tokens per account (issued at registration or later).
pub const MAX_ACTIVE_TOKENS: u32 = 5;

// ---------- hashing ----------

/// Lowercase hex rendering of bytes, two digits per byte.
pub fn hex_lower(bytes: &[u8]) -> (s: String)
    ensures
        s@ == hex_lower_spec(bytes@),
{
    let mut s = String::new();
    let mut i: usize = 0;
    while i < bytes.len()
        invariant
            i <= bytes.len(),
            s@ == Seq::new(2 * i as nat, |k: int| hex_char_at(bytes@, k)),
        decreases bytes.len() - i,
    {
        let b = bytes[i];
        let hi = nibble_lower(b / 16);
        let lo = nibble_lower(b % 16);
        let ghost before = s@;
        push_char(&mut s, hi);
        push_char(&mut s, lo);
        assert(s@ =~= Seq::new(2 * (i + 1) as nat, |k: int| hex_char_at(bytes@, k))) by {
            assert forall|k: int| 0 <= k < 2 * (i + 1) implies s@[k] == hex_char_at(
                bytes@,
                k,
            ) by {
                if k == 2 * i {
                    assert(k / 2 == i && k % 2 == 0);
                } else if k == 2 * i + 1 {
                    assert(k / 2 == i && k % 2 == 1);
                } else {
                    assert(s@[k] == before[k]);
                }
            }
        }
        i = i + 1;
    }
    s
}

/// The stored form of a secret: lowercase hex of its SHA-256 digest.
pub open spec fn secret_hash(secret: Seq<char>) -> Seq<char> {
    hex_lower_spec(sha256(encode_utf8(secret)))
}

/// SHA-256 hex of a secret (tokens and session secrets share this form).
pub fn hash_secret(secret: &str) -> (h: String)
    ensures
        h@ == secret_hash(secret@),
        h@.len() == 64,
{
    let digest = sha256_digest(secret.as_bytes());
    hex_lower(digest.as_slice())
}

// ---------- token generation ----------

pub open spec fn token_prefix() -> Seq<char> {
    seq!['f', 'm', '1', '_']
}

/// An opaque token: `fm1_` and the unpadded URL-safe base64 of 32 bytes.
pub open spec fn is_token_form(t: Seq<char>) -> bool {
    exists|buf: Seq<u8>| buf.len() == 32 && t == token_prefix() + b64_url_no_pad(buf)
}

/// A session secret: the unpadded URL-safe base64 of 32 bytes.
pub open spec fn is_session_secret_form(t: Seq<char>) -> bool {
    exists|buf: Seq<u8>| buf.len() == 32 && t == b64_url_no_pad(buf)
}

/// The token made from 32 drawn bytes: `fm1_` + their base64url.
pub fn token_of_bytes(buf: &[u8]) -> (t: String)
    requires
        buf@.len() == 32,
    ensures
        t@ == token_prefix() + b64_url_no_pad(buf@),
{
    assert(b64_len(32) == 43);
    let enc = base64_url_no_pad(buf);
    let mut t = String::new();
    push_char(&mut t, 'f');
    push_char(&mut t, 'm');
    push_char(&mut t, '1');
    push_char(&mut t, '_');
    push_str(&mut t, enc.as_str());
    assert(t@ =~= token_prefix() + b64_url_no_pad(buf@));
    t
}

/// The session secret made from 32 drawn bytes: their base64url.
pub fn session_secret_of_bytes(buf: &[u8]) -> (s: String)
    requires
        buf@.len() == 32,
    ensures
        s@ == b64_url_no_pad(buf@),
{
    assert(b64_len(32) == 43);
    base64_url_no_pad(buf)
}

/// Generates an opaque token: `fm1_` + base64url(32 random bytes).
pub fn generate_token() -> (t: String)
    ensures
        is_token_form(t@),
{
    let buf = random_bytes_32();
    token_of_bytes(buf.as_slice())
}

/// Generates a session secret (no prefix; it lives only in the cookie).
pub fn generate_session_secret() -> (s: String)
    ensures
        is_session_secret_form(s@),
{
    let buf = random_bytes_32();
    session_secret_of_bytes(buf.as_slice())
}

/// Every generated token is 47 characters long (`fm1_` and 43), and the part after `fm1_` uses the URL-safe alphabet only.
pub proof fn law_token_format(t: Seq<char>)
    requires
        is_token_form(t),
    ensures
        t.len() == 47,
        t.take(4) == token_prefix(),
        forall|k: int| 4 <= k < 47 ==> is_b64_url_char(#[trigger] t[k]),
{
    let buf = choose|buf: Seq<u8>| buf.len() == 32 && t == token_prefix() + b64_url_no_pad(buf);
    assert(b64_len(32) == 43);
    assert(t.take(4) =~= token_prefix());
    lemma_b64_chars(buf);
    assert forall|k: int| 4 <= k < 47 implies is_b64_url_char(#[trigger] t[k]) by {
        assert(t[k] == b64_url_no_pad(buf)[k - 4]);
    }
}

// ---------- registration and token rules ----------

/// What registration decides: the trimmed name must be 1..=64 bytes and the
/// token count 1..=5.
pub open spec fn registration_outcome(name: Seq<char>, token_count: u32) -> Result<Seq<char>, ErrorCode> {
    let n = trim(name);
    if encode_utf8(n).len() == 0 || encode_utf8(n).len() > 64 {
        Err(ErrorCode::ValidationError)
    } else if !(1 <= token_count <= MAX_ACTIVE_TOKENS) {
        Err(ErrorCode::ValidationError)
    } else {
        Ok(n)
    }
}

/// Validates a registration request; returns the trimmed account name.
pub fn validate_registration(name: &str, token_count: u32) -> (r: Result<String, ApiError>)
    ensures
        match r {
            Ok(n) => registration_outcome(name@, token_count) == Ok::<Seq<char>, ErrorCode>(n@),
            Err(e) => registration_outcome(name@, token_count) == Err::<Seq<char>, ErrorCode>(
                e.code,
            ),
        },
{
    let n = trim_str(name);
    let ns = n.as_str();
    let len = ns.as_bytes().len();
    assert(ns@ == n@);
    assert(len == encode_utf8(n@).len());
    if len == 0 || len > 64 {
        return Err(ApiError::validation("name must be 1..=64 chars"));
    }
    if !(1 <= token_count && token_count <= MAX_ACTIVE_TOKENS) {
        return Err(ApiError::validation("token_count must be 1..=5"));
    }
    Ok(n)
}

/// The token count asked for at registration: 3 when absent.
pub fn registration_token_count(requested: Option<u32>) -> (n: u32)
    ensures
        n == match requested {
            Some(k) => k,
            None => 3u32,
        },
{
    match requested {
        Some(k) => k,
        None => 3,
    }
}

/// The label of the `i`-th token issued at registration: the first is
/// labelled `default`, the others are unlabelled.
pub fn registration_token_label(i: u32) -> (l: String)
    ensures
        i == 0 ==> l@ == seq!['d', 'e', 'f', 'a', 'u', 'l', 't'],
        i != 0 ==> l@ == Seq::<char>::empty(),
{
    let mut l = String::new();
    if i == 0 {
        push_char(&mut l, 'd');
        push_char(&mut l, 'e');
        push_char(&mut l, 'f');
        push_char(&mut l, 'a');
        push_char(&mut l, 'u');
        push_char(&mut l, 'l');
        push_char(&mut l, 't');
    }
    l
}

/// Another token may be issued only while the account holds fewer than
/// `MAX_ACTIVE_TOKENS`; otherwise 409.
pub fn check_token_quota(active: u32) -> (r: Result<(), ApiError>)
    ensures
        r is Ok <==> active < MAX_ACTIVE_TOKENS,
        r matches Err(e) ==> e.code == ErrorCode::Conflict,
{
    if active >= MAX_ACTIVE_TOKENS {
        Err(ApiError::conflict("active token limit reached (5)"))
    } else {
        Ok(())
    }
}

/// The answer to a revocation: the deleted token's cascaded session count,
/// or 404 when no token of the account had that id.
pub fn revoke_outcome(cascaded: Option<u64>) -> (r: Result<RevokeTokenResponse, ApiError>)
    ensures
        match cascaded {
            Some(n) => r matches Ok(resp) && resp.revoked && resp.revoked_sessions == n,
            None => r matches Err(e) && e.code == ErrorCode::NotFound,
        },
{
    match cascaded {
        Some(n) => Ok(RevokeTokenResponse { revoked: true, revoked_sessions: n }),
        None => Err(ApiError::not_found("token not found")),
    }
}

/// A token as stored: everything but its hash.
#[derive(Debug)]
pub struct TokenRow {
    pub id: String,
    pub account_id: String,
    pub label: String,
    pub created_at: i64,
    pub last_used_at: Option<i64>,
    pub last_user_agent: Option<String>,
}

/// A copy of an optional string.
pub fn clone_opt_string(o: &Option<String>) -> (r: Option<String>)
    ensures
        r == *o,
{
    match o {
        Some(s) => Some(s.clone()),
        None => None,
    }
}

/// Lists an account's tokens, marking the one that authenticated the
/// request.
pub fn token_infos(rows: &Vec<TokenRow>, current_id: &str) -> (out: Vec<TokenInfo>)
    ensures
        out.len() == rows.len(),
        forall|i: int|
            0 <= i < rows.len() ==> {
                &&& (#[trigger] out[i]).id@ == rows[i].id@
                &&& out[i].label@ == rows[i].label@
                &&& out[i].created_at == rows[i].created_at
                &&& out[i].last_used_at == rows[i].last_used_at
                &&& out[i].last_user_agent == rows[i].last_user_agent
                &&& out[i].current == (rows[i].id@ == current_id@)
            },
{
    let cc = crate::text::chars_of(current_id);
    let mut out: Vec<TokenInfo> = Vec::new();
    let mut i: usize = 0;
    while i < rows.len()
        invariant
            i <= rows.len(),
            out.len() == i,
            cc@ == current_id@,
            forall|k: int|
                0 <= k < i ==> {
                    &&& (#[trigger] out[k]).id@ == rows[k].id@
                    &&& out[k].label@ == rows[k].label@
                    &&& out[k].created_at == rows[k].created_at
                    &&& out[k].last_used_at == rows[k].last_used_at
                    &&& out[k].last_user_agent == rows[k].last_user_agent
                    &&& out[k].current == (rows[k].id@ == current_id@)
                },
        decreases rows.len() - i,
    {
        let r = &rows[i];
        let cs = crate::text::chars_of(r.id.as_str());
        let current = crate::text::chars_eq(&cs, &cc);
        out.push(
            TokenInfo {
                id: r.id.clone(),
                label: r.label.clone(),
                created_at: r.created_at,
                last_used_at: r.last_used_at,
                last_user_agent: clone_opt_string(&r.last_user_agent),
                current,
            },
        );
        i = i + 1;
    }
    out
}

} // verus!
