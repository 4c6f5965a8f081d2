use folkmoot::errors::ErrorCode;
use folkmoot::messaging::{
    check_add_members, check_dm_peer, check_leave, check_remove_member, check_removable, check_text,
    check_upload_length, clamp_limit, classify_send_body, creation_status, group_member_ids,
    poll_deadline, poll_step, redact_agent_keys, removal_outcome, require_member, AgentsQuery,
    ConversationRow, HistoryPlan, HistoryQuery, ListQuery, PollStep, SendBody, UploadDraft,
};
use folkmoot::protocol::{AgentInfo, ConversationKind, ParticipantInfo};

fn group(created_by: &str) -> ConversationRow {
    ConversationRow {
        id: "c1".into(),
        kind: ConversationKind::Group,
        title: Some("ops".into()),
        created_by: created_by.into(),
        created_at: 1,
        last_message_at: 2,
    }
}

fn dm(created_by: &str) -> ConversationRow {
    ConversationRow { kind: ConversationKind::Dm, title: None, ..group(created_by) }
}

fn agent(id: &str, account: &str, key: &str) -> AgentInfo {
    AgentInfo {
        id: id.into(),
        agent_key: Some(key.into()),
        account_id: account.into(),
        display_name: None,
        created_at: 0,
        last_seen_at: 0,
    }
}

#[test]
fn dm_peers() {
    let e = check_dm_peer("a1", "a1").unwrap_err();
    assert_eq!(e.code, ErrorCode::ValidationError);
    assert_eq!(e.message, "self-DM is not allowed");
    assert_eq!(check_dm_peer("b2", "a1").unwrap(), "a1:b2");
    assert_eq!(creation_status(true), 201);
    assert_eq!(creation_status(false), 200);
}

#[test]
fn group_members_start_with_creator_without_duplicates() {
    let resolved: Vec<String> = vec!["b".into(), "c".into(), "b".into(), "a".into()];
    assert_eq!(group_member_ids("a", &resolved), vec!["a", "b", "c"]);
    assert_eq!(group_member_ids("a", &vec![]), vec!["a"]);
}

#[test]
fn membership_is_not_disclosed() {
    assert!(require_member(true).is_ok());
    let e = require_member(false).unwrap_err();
    assert_eq!(e.code, ErrorCode::NotFound);
    assert_eq!(e.message, "conversation not found");
}

#[test]
fn adding_members() {
    assert!(check_add_members(Some(&group("a")), "a").is_ok());
    assert_eq!(check_add_members(None, "a").unwrap_err().code, ErrorCode::NotFound);
    let e = check_add_members(Some(&dm("a")), "a").unwrap_err();
    assert_eq!(e.code, ErrorCode::ValidationError);
    let e = check_add_members(Some(&group("a")), "b").unwrap_err();
    assert_eq!(e.code, ErrorCode::Forbidden);
    assert_eq!(e.message, "only the creator can add members");
}

#[test]
fn removing_members() {
    assert!(check_remove_member(Some(&group("a")), "a").is_ok());
    assert!(check_removable(&group("a"), "b").is_ok());
    assert_eq!(check_remove_member(None, "a").unwrap_err().code, ErrorCode::NotFound);
    assert_eq!(check_remove_member(Some(&dm("a")), "a").unwrap_err().code, ErrorCode::ValidationError);
    let e = check_remove_member(Some(&group("a")), "b").unwrap_err();
    assert_eq!(e.code, ErrorCode::Forbidden);
    assert_eq!(e.message, "only the creator can remove members");
    let e = check_removable(&group("a"), "a").unwrap_err();
    assert_eq!(e.code, ErrorCode::ValidationError);
    assert_eq!(e.message, "cannot remove the creator");
    assert!(removal_outcome(true, "x").is_ok());
    let e = removal_outcome(false, "member not found").unwrap_err();
    assert_eq!(e.code, ErrorCode::NotFound);
    assert_eq!(e.message, "member not found");
}

#[test]
fn leaving() {
    assert!(check_leave(Some(&group("a")), "b").is_ok());
    assert_eq!(check_leave(None, "b").unwrap_err().code, ErrorCode::NotFound);
    let e = check_leave(Some(&dm("a")), "b").unwrap_err();
    assert_eq!(e.message, "cannot leave a DM");
    let e = check_leave(Some(&group("a")), "a").unwrap_err();
    assert_eq!(e.code, ErrorCode::ValidationError);
    assert_eq!(e.message, "creator cannot leave (ownership must not be orphaned)");
}

#[test]
fn summaries_carry_the_members() {
    let members = vec![ParticipantInfo { agent_id: "a".into(), agent_key: Some("ops".into()), joined_at: 3 }];
    let s = group("a").into_summary(members);
    assert_eq!(s.id, "c1");
    assert_eq!(s.kind, ConversationKind::Group);
    assert_eq!(s.members.len(), 1);
    assert_eq!(s.members[0].agent_key.as_deref(), Some("ops"));
}

#[test]
fn page_limits() {
    assert_eq!(clamp_limit(None), 50);
    assert_eq!(clamp_limit(Some(10)), 10);
    assert_eq!(clamp_limit(Some(1000)), 200);
    let q = AgentsQuery { scope: Some("all".into()), limit: None, offset: Some(5) };
    assert_eq!(q.plan(), (true, 50, 5));
    let q = AgentsQuery { scope: Some("account".into()), limit: Some(300), offset: None };
    assert_eq!(q.plan(), (false, 200, 0));
    let q = ListQuery { limit: Some(7), offset: None };
    assert_eq!(q.plan(), (7, 0));
}

#[test]
fn keys_hidden_across_accounts() {
    let items = vec![agent("1", "acc-a", "ops"), agent("2", "acc-b", "web")];
    let all = redact_agent_keys(items, "acc-a", true);
    assert_eq!(all[0].agent_key.as_deref(), Some("ops"));
    assert_eq!(all[1].agent_key, None);
    let items = vec![agent("2", "acc-b", "web")];
    let own = redact_agent_keys(items, "acc-a", false);
    assert_eq!(own[0].agent_key.as_deref(), Some("web"));
}

#[test]
fn message_texts() {
    assert!(check_text("hi").is_ok());
    assert!(check_text(&"x".repeat(8192)).is_ok());
    let e = check_text("").unwrap_err();
    assert_eq!(e.code, ErrorCode::ValidationError);
    assert!(check_text(&"x".repeat(8193)).is_err());
    assert!(check_text(&"é".repeat(4097)).is_err());
}

#[test]
fn history_plans() {
    let q = HistoryQuery { limit: None, before: Some("m1".into()), after: None, wait: None };
    match q.plan() {
        Ok(HistoryPlan::Page { limit, before, after }) => {
            assert_eq!(limit, 50);
            assert_eq!(before.as_deref(), Some("m1"));
            assert_eq!(after, None);
        }
        _ => panic!("expected a page"),
    }
    let q = HistoryQuery { limit: Some(5), before: None, after: Some("m2".into()), wait: Some(10) };
    match q.plan() {
        Ok(HistoryPlan::Poll { cursor, wait_secs, limit }) => {
            assert_eq!(cursor, "m2");
            assert_eq!(wait_secs, 10);
            assert_eq!(limit, 5);
        }
        _ => panic!("expected a poll"),
    }
    let q = HistoryQuery { limit: None, before: None, after: None, wait: Some(5) };
    let e = q.plan().err().unwrap();
    assert_eq!(e.message, "wait>0 requires after cursor");
    let q = HistoryQuery { limit: None, before: None, after: Some("m".into()), wait: Some(31) };
    let e = q.plan().err().unwrap();
    assert_eq!(e.code, ErrorCode::ValidationError);
    assert_eq!(e.message, "wait must be <= 30");
    let q = HistoryQuery { limit: None, before: None, after: Some("m".into()), wait: Some(0) };
    assert!(matches!(q.plan(), Ok(HistoryPlan::Page { .. })));
}

#[test]
fn long_poll_steps() {
    assert_eq!(poll_deadline(1000, 5), 6000);
    assert_eq!(poll_deadline(0, 99), 30000);
    assert!(matches!(poll_step(true, 0, 10), PollStep::Deliver));
    assert!(matches!(poll_step(false, 10, 10), PollStep::Timeout));
    match poll_step(false, 0, 400) {
        PollStep::Wait { tick_ms } => assert!(tick_ms > 0 && tick_ms <= 400),
        _ => panic!("expected a wait"),
    }
    match poll_step(false, 0, 5000) {
        PollStep::Wait { tick_ms } => assert!(tick_ms > 0 && tick_ms <= 1000),
        _ => panic!("expected a wait"),
    }
}

#[test]
fn send_bodies() {
    assert!(matches!(classify_send_body("application/json; charset=utf-8"), Ok(SendBody::Json)));
    assert!(matches!(classify_send_body("multipart/form-data; boundary=x"), Ok(SendBody::Multipart)));
    let e = classify_send_body("text/plain").err().unwrap();
    assert_eq!(e.code, ErrorCode::UnsupportedMediaType);
    assert_eq!(e.code.http_status(), 415);
}

#[test]
fn upload_length_limit() {
    let max = 20 * 1024 * 1024;
    assert!(check_upload_length(None, max, 9).is_ok());
    assert!(check_upload_length(Some(max * 9 + 65536), max, 9).is_ok());
    let e = check_upload_length(Some(max * 9 + 65537), max, 9).unwrap_err();
    assert_eq!(e.code, ErrorCode::PayloadTooLarge);
}

#[test]
fn upload_drafts() {
    let mut d = UploadDraft::new();
    assert_eq!(d.check_complete().unwrap_err().code, ErrorCode::ValidationError);
    d.add_text("caption".into()).unwrap();
    assert!(d.check_complete().is_ok());
    let e = d.add_text("x".repeat(8193)).unwrap_err();
    assert_eq!(e.message, "text exceeds 8192 bytes");
    assert_eq!(d.text.as_deref(), Some("caption"));
    assert!(d.check_file_slot(1).is_ok());
    d.add_file(Some("../evil.png"), vec![1, 2, 3], 10).unwrap();
    assert_eq!(d.files[0].0, "evil.png");
    assert_eq!(d.files[0].1, vec![1, 2, 3]);
    let e = d.check_file_slot(1).unwrap_err();
    assert_eq!(e.code, ErrorCode::ValidationError);
    assert_eq!(e.message, "too many attachments (max 1)");
    let e = d.add_file(None, vec![0; 11], 10).unwrap_err();
    assert_eq!(e.code, ErrorCode::PayloadTooLarge);
    assert_eq!(d.files.len(), 1);
    d.add_file(None, vec![], 10).unwrap();
    assert_eq!(d.files[1].0, "file");

    let mut empty_text = UploadDraft::new();
    empty_text.add_text(String::new()).unwrap();
    assert!(empty_text.check_complete().is_err());
}
