//! Conversation and message rules: DM creation, group membership, who may
//! change membership, message size limits, uploads, history queries and
//! long polling.

use vstd::prelude::*;
use vstd::string::StringSliceAdditionalSpecFns;
use vstd::utf8::encode_utf8;

use crate::errors::{ApiError, ErrorCode};
use crate::protocol::{
    AgentInfo, ConversationKind, ConversationSummary, ParticipantInfo, dm_key, dm_key_spec,
};
use crate::text::{chars_of, chars_eq, chars_starts_with, has_prefix, push_str, str_eq, u64_to_decimal, decimal};
use crate::files::{sanitize_file_name, sanitized_name};
use crate::session::opt_string_view;

verus! {

/// Largest text of a message, in bytes.
pub const MAX_TEXT_BYTES: usize = 8192;

/// Longest long-poll wait, in seconds.
pub const MAX_WAIT_SECS: u64 = 30;

/// Page size when none is asked for, and the largest page.
pub const DEFAULT_LIMIT: u32 = 50;

pub const MAX_LIMIT: u32 = 200;

// ---------- conversations ----------

/// A conversation as stored.
#[derive(Debug, Clone)]
pub struct ConversationRow {
    pub id: String,
    pub kind: ConversationKind,
    pub title: Option<String>,
    pub created_by: String,
    pub created_at: i64,
    pub last_message_at: i64,
}

impl ConversationRow {
    /// The summary of this conversation with its members.
    pub fn into_summary(self, members: Vec<ParticipantInfo>) -> (s: ConversationSummary)
        ensures
            s.id == self.id,
            s.kind == self.kind,
            s.title == self.title,
            s.created_by == self.created_by,
            s.created_at == self.created_at,
            s.last_message_at == self.last_message_at,
            s.members == members,
    {
        ConversationSummary {
            id: self.id,
            kind: self.kind,
            title: self.title,
            created_by: self.created_by,
            created_at: self.created_at,
            last_message_at: self.last_message_at,
            members,
        }
    }
}

/// A DM names another agent: a DM with oneself is refused (422); otherwise
/// the canonical key under which the DM is found or created.
pub fn check_dm_peer(creator_id: &str, peer_id: &str) -> (r: Result<String, ApiError>)
    ensures
        creator_id@ == peer_id@ ==> (r matches Err(e) && e.code == ErrorCode::ValidationError),
        creator_id@ != peer_id@ ==> (r matches Ok(k) && k@ == dm_key_spec(creator_id, peer_id)),
{
    if str_eq(creator_id, peer_id) {
        return Err(ApiError::validation("self-DM is not allowed"));
    }
    Ok(dm_key(creator_id, peer_id))
}

/// The HTTP status of a conversation creation: 201 when created, 200 when
/// an existing DM is returned.
pub fn creation_status(created: bool) -> (s: u16)
    ensures
        s == if created {
            201u16
        } else {
            200u16
        },
{
    if created {
        201
    } else {
        200
    }
}

/// A DM request against the store's direct conversations, seen as a map
/// from DM key to conversation id: the id stored under the pair's key if
/// there is one (not created); else `fresh`, stored under that key
/// (created). Returns the map after the request, the id, and whether it was
/// created.
pub open spec fn dm_request(
    index: Map<Seq<char>, Seq<char>>,
    creator: &str,
    peer: &str,
    fresh: Seq<char>,
) -> (Map<Seq<char>, Seq<char>>, Seq<char>, bool) {
    let k = dm_key_spec(creator, peer);
    if index.contains_key(k) {
        (index, index[k], false)
    } else {
        (index.insert(k, fresh), fresh, true)
    }
}

/// Asking again for the DM between the same two agents, by either of them,
/// finds the first one: the same id, nothing created (answered 200), and
/// the store unchanged.
pub proof fn law_dm_request_idempotent(
    index: Map<Seq<char>, Seq<char>>,
    creator: &str,
    peer: &str,
    fresh1: Seq<char>,
    fresh2: Seq<char>,
)
    ensures
        ({
            let (after, id, _created) = dm_request(index, creator, peer, fresh1);
            &&& dm_request(after, creator, peer, fresh2) == (after, id, false)
            &&& dm_request(after, peer, creator, fresh2) == (after, id, false)
        }),
{
    crate::protocol::law_dm_key_order_independent(creator, peer);
}

pub open spec fn views(v: Seq<String>) -> Seq<Seq<char>> {
    v.map_values(|s: String| s@)
}

/// The members of a new group: the creator first, then each named agent in
/// order, each agent once.
pub open spec fn group_members_spec(creator: Seq<char>, resolved: Seq<Seq<char>>) -> Seq<Seq<char>>
    decreases resolved.len(),
{
    if resolved.len() == 0 {
        seq![creator]
    } else {
        let acc = group_members_spec(creator, resolved.drop_last());
        if acc.contains(resolved.last()) {
            acc
        } else {
            acc.push(resolved.last())
        }
    }
}

fn vec_contains_str(v: &Vec<String>, x: &str) -> (r: bool)
    ensures
        r == views(v@).contains(x@),
{
    let xv = chars_of(x);
    let mut i: usize = 0;
    while i < v.len()
        invariant
            i <= v.len(),
            xv@ == x@,
            forall|j: int| 0 <= j < i ==> v@[j]@ != x@,
        decreases v.len() - i,
    {
        let cv = chars_of(v[i].as_str());
        if chars_eq(&cv, &xv) {
            assert(views(v@)[i as int] == x@);
            return true;
        }
        i = i + 1;
    }
    assert forall|j: int| 0 <= j < views(v@).len() implies views(v@)[j] != x@ by {
        assert(views(v@)[j] == v@[j]@);
    }
    false
}

/// Member list of a new group conversation.
pub fn group_member_ids(creator_id: &str, resolved: &Vec<String>) -> (ids: Vec<String>)
    ensures
        views(ids@) == group_members_spec(creator_id@, views(resolved@)),
{
    let mut ids: Vec<String> = Vec::new();
    ids.push(crate::text::to_owned_string(creator_id));
    assert(views(ids@) =~= seq![creator_id@]);
    assert(views(resolved@).take(0) =~= Seq::<Seq<char>>::empty());
    let mut i: usize = 0;
    while i < resolved.len()
        invariant
            i <= resolved.len(),
            views(ids@) == group_members_spec(creator_id@, views(resolved@).take(i as int)),
        decreases resolved.len() - i,
    {
        let m = resolved[i].as_str();
        assert(views(resolved@).take((i + 1) as int).drop_last() =~= views(resolved@).take(
            i as int,
        ));
        assert(views(resolved@).take((i + 1) as int).last() == m@);
        if !vec_contains_str(&ids, m) {
            let ghost before = views(ids@);
            ids.push(crate::text::to_owned_string(m));
            assert(views(ids@) =~= before.push(m@));
        }
        i = i + 1;
    }
    assert(views(resolved@).take(i as int) =~= views(resolved@));
    ids
}

/// A new group lists its creator first, every named agent, nobody else,
/// and nobody twice.
pub proof fn law_group_members(creator: Seq<char>, resolved: Seq<Seq<char>>)
    ensures
        group_members_spec(creator, resolved).len() >= 1,
        group_members_spec(creator, resolved)[0] == creator,
        forall|i: int|
            0 <= i < resolved.len() ==> group_members_spec(creator, resolved).contains(
                #[trigger] resolved[i],
            ),
        forall|x: Seq<char>|
            group_members_spec(creator, resolved).contains(x) ==> x == creator
                || resolved.contains(x),
        forall|i: int, j: int|
            0 <= i < j < group_members_spec(creator, resolved).len() ==> group_members_spec(
                creator,
                resolved,
            )[i] != group_members_spec(creator, resolved)[j],
    decreases resolved.len(),
{
    if resolved.len() > 0 {
        let prev = resolved.drop_last();
        law_group_members(creator, prev);
        let acc = group_members_spec(creator, prev);
        let x = resolved.last();
        assert forall|i: int| 0 <= i < resolved.len() implies group_members_spec(
            creator,
            resolved,
        ).contains(#[trigger] resolved[i]) by {
            if i < resolved.len() - 1 {
                assert(prev[i] == resolved[i]);
                assert(acc.contains(prev[i]));
                if !acc.contains(x) {
                    let k = choose|k: int| 0 <= k < acc.len() && acc[k] == prev[i];
                    assert(acc.push(x)[k] == prev[i]);
                }
            } else {
                if !acc.contains(x) {
                    assert(acc.push(x)[acc.len() as int] == x);
                }
            }
        }
        assert forall|y: Seq<char>|
            group_members_spec(creator, resolved).contains(y) implies y == creator
            || resolved.contains(y) by {
            if acc.contains(y) {
                if y != creator {
                    assert(prev.contains(y));
                    let k = choose|k: int| 0 <= k < prev.len() && prev[k] == y;
                    assert(prev[k] == resolved[k]);
                    assert(resolved[k] == y);
                }
            } else {
                let k = choose|k: int|
                    0 <= k < group_members_spec(creator, resolved).len() && group_members_spec(
                        creator,
                        resolved,
                    )[k] == y;
                if !acc.contains(x) {
                    if k < acc.len() {
                        assert(acc[k] == y);
                    } else {
                        assert(y == x);
                        assert(resolved[resolved.len() - 1] == x);
                    }
                }
            }
        }
        if !acc.contains(x) {
            let res = acc.push(x);
            assert forall|i: int, j: int| 0 <= i < j < res.len() implies res[i] != res[j] by {
                if j == acc.len() {
                    assert(res[i] == acc[i]);
                }
            }
            assert(res[0] == acc[0]);
        }
    }
}

/// A conversation the caller may see: it exists and the caller is a member.
/// Otherwise the answer is the same 404 either way, so that a conversation's
/// existence is not disclosed to non-members.
pub fn require_member(is_member: bool) -> (r: Result<(), ApiError>)
    ensures
        r is Ok <==> is_member,
        r matches Err(e) ==> e.code == ErrorCode::NotFound && e.message@
            == "conversation not found"@,
{
    if is_member {
        Ok(())
    } else {
        Err(ApiError::not_found("conversation not found"))
    }
}

/// Who may add members: the conversation must be visible to the caller
/// (`None` when missing or not a member: 404), a group (422), and the
/// caller its creator (403).
pub fn check_add_members(conv: Option<&ConversationRow>, agent_id: &str) -> (r: Result<(), ApiError>)
    ensures
        r is Err <==> add_refused(conv, agent_id),
        match conv {
            None => r matches Err(e) && e.code == ErrorCode::NotFound,
            Some(c) => if c.kind != ConversationKind::Group {
                r matches Err(e) && e.code == ErrorCode::ValidationError
            } else if c.created_by@ != agent_id@ {
                r matches Err(e) && e.code == ErrorCode::Forbidden
            } else {
                r is Ok
            },
        },
{
    match conv {
        None => Err(ApiError::not_found("conversation not found")),
        Some(c) => {
            if c.kind != ConversationKind::Group {
                return Err(
                    ApiError::validation("members can only be added to group conversations"),
                );
            }
            if !str_eq(c.created_by.as_str(), agent_id) {
                return Err(ApiError::forbidden("only the creator can add members"));
            }
            Ok(())
        },
    }
}

/// Who may remove a member: as for adding, the conversation must be
/// visible to the caller (404), a group (422), and the caller its creator
/// (403).
pub fn check_remove_member(conv: Option<&ConversationRow>, agent_id: &str) -> (r: Result<
    (),
    ApiError,
>)
    ensures
        r is Err <==> remove_guard_refused(conv, agent_id),
        match conv {
            None => r matches Err(e) && e.code == ErrorCode::NotFound,
            Some(c) => if c.kind != ConversationKind::Group {
                r matches Err(e) && e.code == ErrorCode::ValidationError
            } else if c.created_by@ != agent_id@ {
                r matches Err(e) && e.code == ErrorCode::Forbidden
            } else {
                r is Ok
            },
        },
{
    match conv {
        None => Err(ApiError::not_found("conversation not found")),
        Some(c) => {
            if c.kind != ConversationKind::Group {
                return Err(
                    ApiError::validation("members can only be removed from group conversations"),
                );
            }
            if !str_eq(c.created_by.as_str(), agent_id) {
                return Err(ApiError::forbidden("only the creator can remove members"));
            }
            Ok(())
        },
    }
}

/// Once the member to remove is known: the creator itself cannot be
/// removed (422).
pub fn check_removable(c: &ConversationRow, target_id: &str) -> (r: Result<(), ApiError>)
    ensures
        r is Err <==> target_id@ == c.created_by@,
        r matches Err(e) ==> e.code == ErrorCode::ValidationError,
{
    if str_eq(target_id, c.created_by.as_str()) {
        return Err(ApiError::validation("cannot remove the creator"));
    }
    Ok(())
}

/// Who may leave: the conversation must exist (404), be a group (422), and
/// the caller must not be its creator (422): ownership is never orphaned.
pub fn check_leave(conv: Option<&ConversationRow>, agent_id: &str) -> (r: Result<(), ApiError>)
    ensures
        r is Err <==> leave_refused(conv, agent_id),
        match conv {
            None => r matches Err(e) && e.code == ErrorCode::NotFound,
            Some(c) => if c.kind != ConversationKind::Group {
                r matches Err(e) && e.code == ErrorCode::ValidationError
            } else if c.created_by@ == agent_id@ {
                r matches Err(e) && e.code == ErrorCode::ValidationError
            } else {
                r is Ok
            },
        },
{
    match conv {
        None => Err(ApiError::not_found("conversation not found")),
        Some(c) => {
            if c.kind != ConversationKind::Group {
                return Err(ApiError::validation("cannot leave a DM"));
            }
            if str_eq(c.created_by.as_str(), agent_id) {
                return Err(
                    ApiError::validation("creator cannot leave (ownership must not be orphaned)"),
                );
            }
            Ok(())
        },
    }
}

/// The answer after deleting a participant row: 404 with `message` when
/// there was none to delete.
pub fn removal_outcome(removed: bool, message: &str) -> (r: Result<(), ApiError>)
    ensures
        r is Ok <==> removed,
        r matches Err(e) ==> e.code == ErrorCode::NotFound && e.message@ == message@,
{
    if removed {
        Ok(())
    } else {
        Err(ApiError::not_found(message))
    }
}

/// A DM's members never change, and a group's creator always stays: every
/// request to add to or remove from a DM, to leave a DM, to remove a
/// group's creator, or for the creator to leave, is refused.
pub proof fn law_membership_guards(c: &ConversationRow, agent_id: &str, target_id: &str)
    ensures
        c.kind == ConversationKind::Dm ==> add_refused(Some(c), agent_id) && remove_refused(
            Some(c),
            agent_id,
            target_id,
        ) && leave_refused(Some(c), agent_id),
        // ... and every removal or departure of a group's creator.
        target_id@ == c.created_by@ ==> remove_refused(Some(c), agent_id, target_id),
        agent_id@ == c.created_by@ ==> leave_refused(Some(c), agent_id),
{
}

/// `check_add_members` refuses.
pub open spec fn add_refused(conv: Option<&ConversationRow>, agent_id: &str) -> bool {
    match conv {
        None => true,
        Some(c) => c.kind != ConversationKind::Group || c.created_by@ != agent_id@,
    }
}

/// `check_remove_member` refuses.
pub open spec fn remove_guard_refused(conv: Option<&ConversationRow>, agent_id: &str) -> bool {
    match conv {
        None => true,
        Some(c) => c.kind != ConversationKind::Group || c.created_by@ != agent_id@,
    }
}

/// A removal is refused: by `check_remove_member`, or by `check_removable`
/// for the member named.
pub open spec fn remove_refused(conv: Option<&ConversationRow>, agent_id: &str, target_id: &str) -> bool {
    remove_guard_refused(conv, agent_id) || match conv {
        None => true,
        Some(c) => target_id@ == c.created_by@,
    }
}

/// `check_leave` refuses.
pub open spec fn leave_refused(conv: Option<&ConversationRow>, agent_id: &str) -> bool {
    match conv {
        None => true,
        Some(c) => c.kind != ConversationKind::Group || c.created_by@ == agent_id@,
    }
}

// ---------- agents ----------

/// Query of `GET /agents`.
#[derive(Debug)]
pub struct AgentsQuery {
    pub scope: Option<String>,
    pub limit: Option<u32>,
    pub offset: Option<u32>,
}

/// Query of `GET /conversations`.
#[derive(Debug)]
pub struct ListQuery {
    pub limit: Option<u32>,
    pub offset: Option<u32>,
}

/// A page size: 50 when absent, at most 200.
pub open spec fn page_limit(limit: Option<u32>) -> u32 {
    match limit {
        Some(l) => if l < MAX_LIMIT {
            l
        } else {
            MAX_LIMIT
        },
        None => DEFAULT_LIMIT,
    }
}

pub fn clamp_limit(limit: Option<u32>) -> (l: u32)
    ensures
        l == page_limit(limit),
        l <= MAX_LIMIT,
{
    match limit {
        Some(l) => if l < MAX_LIMIT {
            l
        } else {
            MAX_LIMIT
        },
        None => DEFAULT_LIMIT,
    }
}

impl AgentsQuery {
    /// `(scope_all, limit, offset)`: `scope=all` lists every account's agents.
    pub fn plan(&self) -> (p: (bool, u32, u32))
        ensures
            p.0 == (opt_string_view(self.scope) == Some("all"@)),
            p.1 == page_limit(self.limit),
            p.2 == match self.offset {
                Some(o) => o,
                None => 0u32,
            },
    {
        let all = match &self.scope {
            Some(s) => str_eq(s.as_str(), "all"),
            None => false,
        };
        let offset = match self.offset {
            Some(o) => o,
            None => 0,
        };
        (all, clamp_limit(self.limit), offset)
    }
}

impl ListQuery {
    /// `(limit, offset)` of a conversation listing.
    pub fn plan(&self) -> (p: (u32, u32))
        ensures
            p.0 == page_limit(self.limit),
            p.1 == match self.offset {
                Some(o) => o,
                None => 0u32,
            },
    {
        let offset = match self.offset {
            Some(o) => o,
            None => 0,
        };
        (clamp_limit(self.limit), offset)
    }
}

/// Agent keys are shown only within their account: a listing across
/// accounts hides the keys of other accounts' agents.
pub fn redact_agent_keys(items: Vec<AgentInfo>, account_id: &str, scope_all: bool) -> (out: Vec<
    AgentInfo,
>)
    ensures
        out.len() == items.len(),
        forall|i: int|
            0 <= i < items.len() ==> {
                &&& (#[trigger] out[i]).id == items[i].id
                &&& out[i].account_id == items[i].account_id
                &&& out[i].display_name == items[i].display_name
                &&& out[i].created_at == items[i].created_at
                &&& out[i].last_seen_at == items[i].last_seen_at
                &&& out[i].agent_key == if scope_all && items[i].account_id@ != account_id@ {
                    None
                } else {
                    items[i].agent_key
                }
            },
{
    let ghost orig = items@;
    let mut items = items;
    let mut i: usize = 0;
    while i < items.len()
        invariant
            i <= items.len(),
            items.len() == orig.len(),
            forall|k: int|
                0 <= k < orig.len() ==> {
                    &&& (#[trigger] items@[k]).id == orig[k].id
                    &&& items@[k].account_id == orig[k].account_id
                    &&& items@[k].display_name == orig[k].display_name
                    &&& items@[k].created_at == orig[k].created_at
                    &&& items@[k].last_seen_at == orig[k].last_seen_at
                    &&& items@[k].agent_key == if k < i && scope_all && orig[k].account_id@
                        != account_id@ {
                        None
                    } else {
                        orig[k].agent_key
                    }
                },
        decreases items.len() - i,
    {
        if scope_all && !str_eq(items[i].account_id.as_str(), account_id) {
            let mut a = items.remove(i);
            a.agent_key = None;
            items.insert(i, a);
        }
        i = i + 1;
    }
    items
}

// ---------- messages ----------

/// A message text must be 1..=8192 bytes.
pub fn check_text(text: &str) -> (r: Result<(), ApiError>)
    ensures
        r is Ok <==> (1 <= text.spec_bytes().len() <= MAX_TEXT_BYTES),
        r matches Err(e) ==> e.code == ErrorCode::ValidationError,
{
    let n = text.as_bytes().len();
    if n == 0 || n > MAX_TEXT_BYTES {
        Err(ApiError::validation("text must be 1..=8192 bytes"))
    } else {
        Ok(())
    }
}

/// Query of `GET /conversations/{id}/messages`.
#[derive(Debug)]
pub struct HistoryQuery {
    pub limit: Option<u32>,
    pub before: Option<String>,
    pub after: Option<String>,
    pub wait: Option<u64>,
}

/// What a history request asks for: a page, or a long poll for messages
/// after a cursor.
#[derive(Debug)]
pub enum HistoryPlan {
    Page { limit: u32, before: Option<String>, after: Option<String> },
    Poll { cursor: String, wait_secs: u64, limit: u32 },
}

impl HistoryQuery {
    /// Plans a history request: `wait` needs an `after` cursor (422) and is
    /// at most 30 seconds (422); a positive `wait` asks for a long poll.
    pub fn plan(self) -> (r: Result<HistoryPlan, ApiError>)
        ensures
            ({
                let wait = match self.wait {
                    Some(w) => w,
                    None => 0u64,
                };
                let limit = page_limit(self.limit);
                if wait > 0 && self.after is None {
                    r matches Err(e) && e.code == ErrorCode::ValidationError
                } else if wait > MAX_WAIT_SECS {
                    r matches Err(e) && e.code == ErrorCode::ValidationError
                } else if wait > 0 {
                    r matches Ok(HistoryPlan::Poll { cursor, wait_secs, limit: l }) && Some(cursor)
                        == self.after && wait_secs == wait && l == limit
                } else {
                    r matches Ok(HistoryPlan::Page { limit: l, before, after }) && l == limit
                        && before == self.before && after == self.after
                }
            }),
    {
        let limit = clamp_limit(self.limit);
        let wait = match self.wait {
            Some(w) => w,
            None => 0,
        };
        if wait > 0 && self.after.is_none() {
            return Err(ApiError::validation("wait>0 requires after cursor"));
        }
        if wait > MAX_WAIT_SECS {
            return Err(ApiError::validation("wait must be <= 30"));
        }
        if wait > 0 {
            match self.after {
                Some(after) => Ok(HistoryPlan::Poll { cursor: after, wait_secs: wait, limit }),
                None => Err(ApiError::validation("wait>0 requires after cursor")),
            }
        } else {
            Ok(HistoryPlan::Page { limit, before: self.before, after: self.after })
        }
    }
}

/// One step of a long poll, taken after each short read.
#[derive(Debug)]
pub enum PollStep {
    /// New messages were found: answer with them.
    Deliver,
    /// The deadline passed without new messages: answer with an empty page.
    Timeout,
    /// Sleep this long (or until shutdown), then read again.
    Wait { tick_ms: u64 },
}

/// The deadline of a long poll started at `start_ms` (wait capped at 30 s).
pub fn poll_deadline(start_ms: u64, wait_secs: u64) -> (d: u64)
    requires
        start_ms + MAX_WAIT_SECS * 1000 <= u64::MAX,
    ensures
        d == start_ms + (if wait_secs < MAX_WAIT_SECS {
            wait_secs
        } else {
            MAX_WAIT_SECS
        }) * 1000,
{
    let w = if wait_secs < MAX_WAIT_SECS {
        wait_secs
    } else {
        MAX_WAIT_SECS
    };
    start_ms + w * 1000
}

/// Decides the next step of a long poll: deliver what was found, time out
/// at the deadline, or wait at most one second and never past the deadline.
pub fn poll_step(found: bool, now_ms: u64, deadline_ms: u64) -> (s: PollStep)
    ensures
        found ==> s is Deliver,
        !found && now_ms >= deadline_ms ==> s is Timeout,
        !found && now_ms < deadline_ms ==> (s matches PollStep::Wait { tick_ms } && 0 < tick_ms
            <= 1000 && now_ms + tick_ms <= deadline_ms),
{
    if found {
        PollStep::Deliver
    } else if now_ms >= deadline_ms {
        PollStep::Timeout
    } else {
        let remaining = deadline_ms - now_ms;
        PollStep::Wait {
            tick_ms: if remaining < 1000 {
                remaining
            } else {
                1000
            },
        }
    }
}

// ---------- uploads ----------

/// How a message body is sent.
#[derive(Debug, PartialEq, Eq, Structural)]
pub enum SendBody {
    Json,
    Multipart,
}

/// Dispatches on the `Content-Type` of a send request; anything but JSON
/// or multipart form data is refused with 415.
pub fn classify_send_body(content_type: &str) -> (r: Result<SendBody, ApiError>)
    ensures
        has_prefix(content_type@, "application/json"@) ==> r == Ok::<SendBody, ApiError>(
            SendBody::Json,
        ),
        !has_prefix(content_type@, "application/json"@) && has_prefix(
            content_type@,
            "multipart/form-data"@,
        ) ==> r == Ok::<SendBody, ApiError>(SendBody::Multipart),
        !has_prefix(content_type@, "application/json"@) && !has_prefix(
            content_type@,
            "multipart/form-data"@,
        ) ==> (r matches Err(e) && e.code == ErrorCode::UnsupportedMediaType),
{
    let ct = chars_of(content_type);
    let json = chars_of("application/json");
    if chars_starts_with(&ct, &json) {
        return Ok(SendBody::Json);
    }
    let mp = chars_of("multipart/form-data");
    if chars_starts_with(&ct, &mp) {
        return Ok(SendBody::Multipart);
    }
    Err(
        ApiError::new(
            ErrorCode::UnsupportedMediaType,
            "expected application/json or multipart/form-data",
        ),
    )
}

/// Largest JSON body of a send request: the text limit and 1 KiB.
pub const MAX_JSON_BODY_BYTES: usize = 9216;

/// Refuses (413) a multipart upload whose declared length exceeds every
/// file at its maximum plus 64 KiB, before anything is read.
pub fn check_upload_length(content_length: Option<u64>, max_upload_bytes: u64, max_files: u32) -> (r:
    Result<(), ApiError>)
    requires
        max_upload_bytes * max_files + 65536 <= u64::MAX,
    ensures
        match content_length {
            Some(len) => (r is Err <==> len > max_upload_bytes * max_files + 65536),
            None => r is Ok,
        },
        r matches Err(e) ==> e.code == ErrorCode::PayloadTooLarge,
{
    match content_length {
        None => Ok(()),
        Some(len) => {
            assert(max_upload_bytes * (max_files as u64) <= u64::MAX) by (nonlinear_arith)
                requires
                    max_upload_bytes * max_files + 65536 <= u64::MAX,
            ;
            let hard = max_upload_bytes * (max_files as u64) + 65536;
            if len > hard {
                Err(ApiError::new(ErrorCode::PayloadTooLarge, "upload too large"))
            } else {
                Ok(())
            }
        },
    }
}

/// The parts of a multipart message collected so far.
#[derive(Debug)]
pub struct UploadDraft {
    pub text: Option<String>,
    pub files: Vec<(String, Vec<u8>)>,
}

impl UploadDraft {
    pub fn new() -> (d: Self)
        ensures
            d.text is None,
            d.files@.len() == 0,
    {
        UploadDraft { text: None, files: Vec::new() }
    }

    /// A `text` field: at most 8192 bytes (422); a later one replaces it.
    pub fn add_text(&mut self, v: String) -> (r: Result<(), ApiError>)
        ensures
            r is Ok <==> encode_utf8(v@).len() <= MAX_TEXT_BYTES,
            r matches Err(e) ==> e.code == ErrorCode::ValidationError,
            r is Ok ==> final(self).text == Some(v) && final(self).files == old(self).files,
            r is Err ==> *final(self) == *old(self),
    {
        if v.as_str().as_bytes().len() > MAX_TEXT_BYTES {
            return Err(ApiError::validation("text exceeds 8192 bytes"));
        }
        self.text = Some(v);
        Ok(())
    }

    /// Before a `file` field is read: at most `max_files` files (422).
    pub fn check_file_slot(&self, max_files: u32) -> (r: Result<(), ApiError>)
        ensures
            r is Ok <==> self.files@.len() < max_files,
            r matches Err(e) ==> e.code == ErrorCode::ValidationError,
    {
        if self.files.len() as u64 >= max_files as u64 {
            let mut msg = String::new();
            push_str(&mut msg, "too many attachments (max ");
            let n = u64_to_decimal(max_files as u64);
            push_str(&mut msg, n.as_str());
            push_str(&mut msg, ")");
            return Err(ApiError::validation(msg.as_str()));
        }
        Ok(())
    }

    /// A `file` field once read: at most `max_bytes` (413), then kept
    /// under its sanitised file name (`file` when the part names none).
    pub fn add_file(&mut self, file_name: Option<&str>, data: Vec<u8>, max_bytes: u64) -> (r:
        Result<(), ApiError>)
        ensures
            r is Ok <==> data@.len() <= max_bytes,
            r matches Err(e) ==> e.code == ErrorCode::PayloadTooLarge,
            r is Ok ==> {
                &&& final(self).files@.len() == old(self).files@.len() + 1
                &&& final(self).files@.drop_last() == old(self).files@
                &&& final(self).files@.last().0@ == sanitized_name(
                    match file_name {
                        Some(n) => n@,
                        None => "file"@,
                    },
                )
                &&& final(self).files@.last().1 == data
                &&& final(self).text == old(self).text
            },
            r is Err ==> *final(self) == *old(self),
    {
        let fname = match file_name {
            Some(n) => sanitize_file_name(n),
            None => sanitize_file_name("file"),
        };
        if data.len() as u64 > max_bytes {
            return Err(ApiError::new(ErrorCode::PayloadTooLarge, "upload too large"));
        }
        self.files.push((fname, data));
        assert(self.files@.drop_last() =~= old(self).files@);
        Ok(())
    }

    /// A message needs a non-empty text or at least one file (422).
    pub fn check_complete(&self) -> (r: Result<(), ApiError>)
        ensures
            r is Ok <==> (self.files@.len() > 0 || (self.text matches Some(t) && t@.len() > 0)),
            r matches Err(e) ==> e.code == ErrorCode::ValidationError,
    {
        let has_text = match &self.text {
            Some(t) => t.as_str().as_bytes().len() > 0,
            None => false,
        };
        proof {
            if let Some(t) = &self.text {
                assert(t@.len() == 0 <==> encode_utf8(t@).len() == 0) by {
                    if t@.len() > 0 {
                        assert(t@ =~= seq![t@[0]] + t@.drop_first());
                    } else {
                        assert(t@ =~= Seq::<char>::empty());
                    }
                }
            }
        }
        if self.files.len() == 0 && !has_text {
            return Err(ApiError::validation("message must have text or at least one file"));
        }
        Ok(())
    }
}

} // verus!
