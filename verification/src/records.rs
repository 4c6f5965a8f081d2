//! What the store writes and reads back beside the SQL itself: fresh
//! identifiers, the stored name of a conversation kind, and how an agent
//! reference becomes a key to look up.

use vstd::prelude::*;

use crate::crypto::{is_hyphenated_uuid, uuid_now_v7_string};
use crate::errors::{ApiError, ErrorCode};
use crate::protocol::{ConversationKind, agent_key_outcome, normalize_agent_key};
use crate::text::{lowercase, str_eq, trim};

verus! {

/// A fresh identifier: a time-ordered UUID (v7) in its hyphenated
/// lowercase form.
pub fn new_id() -> (id: String)
    ensures
        is_hyphenated_uuid(id@),
{
    uuid_now_v7_string()
}

/// The name a conversation kind is stored under.
pub open spec fn kind_name(kind: ConversationKind) -> Seq<char> {
    match kind {
        ConversationKind::Dm => "dm"@,
        ConversationKind::Group => "group"@,
    }
}

/// The kind a stored name stands for: `dm`, and a group for anything else.
pub open spec fn kind_of_name(name: Seq<char>) -> ConversationKind {
    if name == "dm"@ {
        ConversationKind::Dm
    } else {
        ConversationKind::Group
    }
}

pub fn kind_db_name(kind: ConversationKind) -> (s: &'static str)
    ensures
        s@ == kind_name(kind),
{
    match kind {
        ConversationKind::Dm => "dm",
        ConversationKind::Group => "group",
    }
}

pub fn kind_from_db(name: &str) -> (k: ConversationKind)
    ensures
        k == kind_of_name(name@),
{
    if str_eq(name, "dm") {
        ConversationKind::Dm
    } else {
        ConversationKind::Group
    }
}

/// A kind read back is the kind that was stored.
pub proof fn law_kind_roundtrip(kind: ConversationKind)
    ensures
        kind_of_name(kind_name(kind)) == kind,
{
    reveal_strlit("dm");
    reveal_strlit("group");
    if kind is Group {
        assert("group"@[0] != "dm"@[0]);
    }
}

/// An agent reference that names no agent id is read as an agent key of
/// the caller's account: normalised, and refused with a validation error
/// when it is not a valid key.
pub fn agent_ref_key(reference: &str) -> (r: Result<String, ApiError>)
    ensures
        match agent_key_outcome(lowercase(trim(reference@))) {
            Ok(k) => r matches Ok(s) && s@ == k,
            Err(m) => r matches Err(e) && e.code == ErrorCode::ValidationError && e.message@ == m@,
        },
{
    match normalize_agent_key(reference) {
        Ok(k) => Ok(k),
        Err(m) => Err(ApiError::validation(m)),
    }
}

} // verus!
