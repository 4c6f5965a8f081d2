//! The REST API's data transfer objects and the two protocol rules shared by
//! server and client: agent key normalisation and the canonical DM key.
//!
//! Timestamps are milliseconds since the Unix epoch (UTC).

use vstd::prelude::*;
use vstd::string::StringSliceAdditionalSpecFns;
use vstd::utf8::encode_utf8;

use crate::text::{
    is_alnum_byte, byte_is_alnum, lowercase, to_lowercase, trim, trim_str, lex_lt, str_lt,
    push_char, push_str, lemma_lex_lt_asymmetric, lemma_lex_lt_total, lemma_bytes_determine_str,
};

verus! {

// ---------- auth / accounts ----------

#[derive(Debug, Clone)]
pub struct RegisterRequest {
    pub name: String,
    /// Tokens to issue, 1..=5, 3 when absent.
    pub token_count: Option<u32>,
}

#[derive(Debug, Clone)]
pub struct AccountSummary {
    pub id: String,
    pub name: String,
    pub created_at: i64,
}

#[derive(Debug, Clone)]
pub struct RegisterResponse {
    pub account: AccountSummary,
    /// Plain tokens, returned this once only.
    pub tokens: Vec<IssuedToken>,
}

#[derive(Debug, Clone)]
pub struct IssuedToken {
    pub id: String,
    pub label: String,
    /// The plain token (`fm1_...`), visible in the issuing response only.
    pub token: String,
}

#[derive(Debug, Clone)]
pub struct TokenInfo {
    pub id: String,
    pub label: String,
    pub created_at: i64,
    pub last_used_at: Option<i64>,
    pub last_user_agent: Option<String>,
    /// Whether this token authenticated the current request.
    pub current: bool,
}

#[derive(Debug, Clone)]
pub struct IssueTokenRequest {
    pub label: String,
}

#[derive(Debug, Clone)]
pub struct RevokeTokenResponse {
    pub revoked: bool,
    /// Sessions revoked along with the token.
    pub revoked_sessions: u64,
}

/// Login response, and `GET /me` without an agent key.
#[derive(Debug, Clone)]
pub struct LoginResponse {
    pub account: AccountSummary,
    pub agent_keys: Vec<String>,
}

// ---------- agents ----------

#[derive(Debug, Clone)]
pub struct AgentInfo {
    pub id: String,
    /// Visible within the account; `None` across accounts.
    pub agent_key: Option<String>,
    pub account_id: String,
    pub display_name: Option<String>,
    pub created_at: i64,
    pub last_seen_at: i64,
}

/// `GET /me` with an agent key.
#[derive(Debug, Clone)]
pub struct MeResponse {
    pub account: AccountSummary,
    pub agent: AgentInfo,
}

#[derive(Debug, Clone)]
pub struct AgentListResponse {
    pub items: Vec<AgentInfo>,
    pub total: u64,
}

// ---------- conversations ----------

#[derive(Debug, Clone, Copy, PartialEq, Eq, Structural)]
pub enum ConversationKind {
    Dm,
    Group,
}

#[derive(Debug, Clone)]
pub enum CreateConversationRequest {
    Dm { peer: String },
    Group { title: Option<String>, members: Vec<String> },
}

#[derive(Debug, Clone)]
pub struct ParticipantInfo {
    pub agent_id: String,
    pub agent_key: Option<String>,
    pub joined_at: i64,
}

#[derive(Debug, Clone)]
pub struct ConversationSummary {
    pub id: String,
    pub kind: ConversationKind,
    pub title: Option<String>,
    pub created_by: String,
    pub created_at: i64,
    pub last_message_at: i64,
    pub members: Vec<ParticipantInfo>,
}

#[derive(Debug, Clone)]
pub struct ConversationListResponse {
    pub items: Vec<ConversationSummary>,
}

#[derive(Debug, Clone)]
pub struct AddMembersRequest {
    pub agent_ids: Vec<String>,
}

// ---------- messages ----------

#[derive(Debug, Clone)]
pub struct SendMessageRequest {
    pub text: String,
}

#[derive(Debug, Clone)]
pub struct AttachmentInfo {
    pub id: String,
    pub file_name: String,
    pub content_type: String,
    pub size_bytes: u64,
    pub sha256: String,
}

#[derive(Debug, Clone)]
pub struct Message {
    pub id: String,
    pub conversation_id: String,
    pub sender_id: String,
    pub sender_key: Option<String>,
    pub text: Option<String>,
    pub attachments: Vec<AttachmentInfo>,
    pub created_at: i64,
}

#[derive(Debug, Clone)]
pub struct MessagePage {
    pub items: Vec<Message>,
    /// Id of the oldest message of the page; `None` at the end of history.
    pub next_cursor: Option<String>,
}

// ---------- misc ----------

#[derive(Debug, Clone)]
pub struct HealthResponse {
    pub status: String,
    pub version: String,
}

// ---------- agent keys ----------

pub const KEY_LENGTH_ERROR: &'static str = "agent key must be 1..=32 chars";

pub const KEY_START_ERROR: &'static str = "agent key must start with [a-z0-9]";

pub const KEY_CHARSET_ERROR: &'static str = "agent key charset: [a-z0-9-]";

/// Every byte is an ASCII letter, digit or `-`.
pub open spec fn key_charset_ok(b: Seq<u8>) -> bool {
    forall|i: int| 0 <= i < b.len() ==> is_alnum_byte(#[trigger] b[i]) || b[i] == 0x2d
}

/// What is decided of an already lowercased key `k`: 1..=32 bytes, first byte a
/// letter or digit, then letters, digits and `-`.
pub open spec fn agent_key_outcome(k: Seq<char>) -> Result<Seq<char>, &'static str> {
    let b = encode_utf8(k);
    if b.len() == 0 || b.len() > 32 {
        Err(KEY_LENGTH_ERROR)
    } else if !is_alnum_byte(b[0]) {
        Err(KEY_START_ERROR)
    } else if !key_charset_ok(b) {
        Err(KEY_CHARSET_ERROR)
    } else {
        Ok(k)
    }
}

pub open spec fn view_result(r: Result<String, &'static str>) -> Result<Seq<char>, &'static str> {
    match r {
        Ok(s) => Ok(s@),
        Err(e) => Err(e),
    }
}

/// Checks a lowercased agent key against `^[a-z0-9][a-z0-9-]{0,31}$`
/// (byte-wise, ASCII letters of either case).
pub fn check_agent_key(key: String) -> (r: Result<String, &'static str>)
    ensures
        view_result(r) == agent_key_outcome(key@),
{
    let bytes = key.as_str().as_bytes();
    assert(bytes@ == encode_utf8(key@));
    if bytes.len() == 0 || bytes.len() > 32 {
        return Err(KEY_LENGTH_ERROR);
    }
    if !byte_is_alnum(bytes[0]) {
        return Err(KEY_START_ERROR);
    }
    let mut i: usize = 0;
    while i < bytes.len()
        invariant
            i <= bytes.len(),
            bytes@ == encode_utf8(key@),
            1 <= bytes.len() <= 32,
            is_alnum_byte(bytes@[0]),
            forall|j: int| 0 <= j < i ==> is_alnum_byte(#[trigger] bytes@[j]) || bytes@[j] == 0x2d,
        decreases bytes.len() - i,
    {
        if !(byte_is_alnum(bytes[i]) || bytes[i] == 0x2d) {
            assert(!(is_alnum_byte(bytes@[i as int]) || bytes@[i as int] == 0x2d));
            assert(!key_charset_ok(bytes@));
            return Err(KEY_CHARSET_ERROR);
        }
        i = i + 1;
    }
    Ok(key)
}

/// Normalises an agent key: trims, lowercases, then checks the charset
/// `^[a-z0-9][a-z0-9-]{0,31}$`.
pub fn normalize_agent_key(raw: &str) -> (r: Result<String, &'static str>)
    ensures
        view_result(r) == agent_key_outcome(lowercase(trim(raw@))),
{
    let trimmed = trim_str(raw);
    let key = to_lowercase(trimmed.as_str());
    check_agent_key(key)
}

// ---------- DM keys ----------

/// `min(a,b):max(a,b)` in the byte order of strings.
pub open spec fn dm_key_spec(a: &str, b: &str) -> Seq<char> {
    if lex_lt(a.spec_bytes(), b.spec_bytes()) {
        a@ + seq![':'] + b@
    } else {
        b@ + seq![':'] + a@
    }
}

/// A key is accepted exactly when its UTF-8 form has 1 to 32 bytes, all
/// ASCII letters, digits or `-`, the first not `-`; it is then accepted as
/// it stands. A key of the right length whose first byte is a letter or
/// digit but which holds any other byte (`.`, `_`, a space, anything not
/// ASCII) is refused with the charset message.
pub proof fn law_agent_key_charset(k: Seq<char>)
    ensures
        agent_key_outcome(k) is Ok ==> agent_key_outcome(k) == Ok::<Seq<char>, &'static str>(k)
            && 1 <= encode_utf8(k).len() <= 32 && is_alnum_byte(encode_utf8(k)[0]) && forall|
            i: int,
        |
            0 <= i < encode_utf8(k).len() ==> is_alnum_byte(#[trigger] encode_utf8(k)[i])
                || encode_utf8(k)[i] == 0x2d,
        (1 <= encode_utf8(k).len() <= 32 && is_alnum_byte(encode_utf8(k)[0]) && forall|i: int|
            0 <= i < encode_utf8(k).len() ==> is_alnum_byte(#[trigger] encode_utf8(k)[i])
                || encode_utf8(k)[i] == 0x2d) ==> agent_key_outcome(k) == Ok::<
            Seq<char>,
            &'static str,
        >(k),
        forall|j: int|
            1 <= encode_utf8(k).len() <= 32 && is_alnum_byte(encode_utf8(k)[0]) && 0 <= j
                < encode_utf8(k).len() && !is_alnum_byte(#[trigger] encode_utf8(k)[j])
                && encode_utf8(k)[j] != 0x2d ==> agent_key_outcome(k) == Err::<
                Seq<char>,
                &'static str,
            >(KEY_CHARSET_ERROR),
        encode_utf8(k).len() == 0 || encode_utf8(k).len() > 32 ==> agent_key_outcome(k) == Err::<
            Seq<char>,
            &'static str,
        >(KEY_LENGTH_ERROR),
{
}

/// The canonical key of the DM between two agents.
pub fn dm_key(a: &str, b: &str) -> (k: String)
    ensures
        k@ == dm_key_spec(a, b),
{
    let (first, second) = if str_lt(a, b) {
        (a, b)
    } else {
        (b, a)
    };
    let mut k = String::new();
    push_str(&mut k, first);
    push_char(&mut k, ':');
    push_str(&mut k, second);
    assert(k@ =~= first@ + seq![':'] + second@);
    k
}

/// The DM key does not depend on the order of the two agents.
pub proof fn law_dm_key_order_independent(a: &str, b: &str)
    ensures
        dm_key_spec(a, b) == dm_key_spec(b, a),
{
    lemma_lex_lt_asymmetric(a.spec_bytes(), b.spec_bytes());
    lemma_lex_lt_asymmetric(b.spec_bytes(), a.spec_bytes());
    lemma_lex_lt_total(a.spec_bytes(), b.spec_bytes());
    if a.spec_bytes() == b.spec_bytes() {
        lemma_bytes_determine_str(a, b);
    }
}

} // verus!
