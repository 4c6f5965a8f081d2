use folkmoot::client::Aliases;
use folkmoot::display::{
    agent_row, agent_table, alias_table, conv_row, conv_row_ready, conversation_table, member_names,
    member_row, members_ready, short_id_ok, timeline_ready,
    member_table, rel_time, short_id_of, table, timeline_line, token_row, token_table,
};
use folkmoot::protocol::{
    AgentInfo, AttachmentInfo, ConversationKind, ConversationSummary, Message, ParticipantInfo,
    TokenInfo,
};

fn msg(key: Option<&str>, text: Option<&str>, attachments: Vec<AttachmentInfo>) -> Message {
    Message {
        id: "0198ffff-0000-7000-8000-000000000001".into(),
        conversation_id: "c1".into(),
        sender_id: "0198abcd-0000-7000-8000-000000000002".into(),
        sender_key: key.map(String::from),
        text: text.map(String::from),
        attachments,
        created_at: 0,
    }
}

fn member(id: &str, key: Option<&str>) -> ParticipantInfo {
    ParticipantInfo { agent_id: id.into(), agent_key: key.map(String::from), joined_at: 0 }
}

fn conv(kind: ConversationKind, title: Option<&str>) -> ConversationSummary {
    ConversationSummary {
        id: "0198c0c0-1111-7000-8000-000000000003".into(),
        kind,
        title: title.map(String::from),
        created_by: "0198a1a1-0000-7000-8000-00000000000a".into(),
        created_at: 0,
        last_message_at: 0,
        members: vec![
            member("0198a1a1-0000-7000-8000-00000000000a", Some("ops")),
            member("0198b2b2-0000-7000-8000-00000000000b", None),
        ],
    }
}

#[test]
fn relative_times() {
    assert_eq!(rel_time(-5), "just now");
    assert_eq!(rel_time(0), "just now");
    assert_eq!(rel_time(59), "just now");
    assert_eq!(rel_time(60), "1m ago");
    assert_eq!(rel_time(3599), "59m ago");
    assert_eq!(rel_time(3600), "1h ago");
    assert_eq!(rel_time(86399), "23h ago");
    assert_eq!(rel_time(86400), "1d ago");
    assert_eq!(rel_time(10 * 86400 + 5), "10d ago");
}

#[test]
fn short_ids() {
    assert_eq!(short_id_of("0198abcd-0000"), "0198abcd");
}

#[test]
fn timeline_text_lines() {
    let m = msg(Some("agent-beta"), Some("deploy done"), vec![]);
    assert_eq!(timeline_line(&m, "14:02"), "14:02 agent-beta   | deploy done");
    let m = msg(Some("ops"), Some("first\r\nsecond\n"), vec![]);
    assert_eq!(
        timeline_line(&m, "09:30"),
        "09:30 ops          | first\n                   | second"
    );
    let m = msg(Some("a-very-long-agent-key"), Some("x"), vec![]);
    assert_eq!(timeline_line(&m, "00:00"), "00:00 a-very-long-agent-key | x");
}

#[test]
fn timeline_attachments_and_empty_messages() {
    let a = AttachmentInfo {
        id: "0198eeee-att".into(),
        file_name: "chart.png".into(),
        content_type: "image/png".into(),
        size_bytes: 10,
        sha256: "ab12cd34ef567890".into(),
    };
    let m = msg(Some("ops"), None, vec![a]);
    assert_eq!(
        timeline_line(&m, "14:02"),
        "14:02 ops          | [image chart.png sha256:ab12cd34… id=0198eeee-att]"
    );
    let m = msg(None, None, vec![]);
    assert_eq!(timeline_line(&m, "14:02"), "14:02 0198abcd     | (empty)");
    let m = msg(None, Some(""), vec![]);
    assert_eq!(timeline_line(&m, "14:02"), "14:02 0198abcd     | (empty)");
}

#[test]
fn conversation_rows() {
    let c = conv(ConversationKind::Group, Some("ops room"));
    assert_eq!(member_names(&c), "ops, 0198b2b2");
    assert_eq!(conv_row(&c, 120), vec!["0198c0c0", "group: ops room", "ops, 0198b2b2", "2m ago"]);
    let d = conv(ConversationKind::Dm, None);
    assert_eq!(conv_row(&d, 0)[1], "dm");
    let g = conv(ConversationKind::Group, None);
    assert_eq!(conv_row(&g, 0)[1], "group: ");
}

#[test]
fn table_rows() {
    let a = AgentInfo {
        id: "0198a1a1-0000".into(),
        agent_key: None,
        account_id: "0198acac-0000".into(),
        display_name: None,
        created_at: 0,
        last_seen_at: 0,
    };
    assert_eq!(agent_row(&a, 7200), vec!["0198a1a1", "-", "0198acac", "2h ago"]);
    let c = conv(ConversationKind::Group, None);
    assert_eq!(member_row(&c.members[0], &c.created_by), vec!["ops", "0198a1a1", "creator"]);
    assert_eq!(member_row(&c.members[1], &c.created_by), vec!["0198b2b2", "0198b2b2", ""]);
    let t = TokenInfo {
        id: "0198dddd-0000".into(),
        label: String::new(),
        created_at: 0,
        last_used_at: None,
        last_user_agent: Some("x".repeat(50)),
        current: true,
    };
    assert_eq!(
        token_row(&t, 90000, None),
        vec!["0198dddd *".to_string(), "-".into(), "1d ago".into(), "never".into(), "x".repeat(40)]
    );
    let t2 = TokenInfo { current: false, label: "ci".into(), last_user_agent: None, ..t };
    assert_eq!(token_row(&t2, 0, Some(61)), vec!["0198dddd", "ci", "just now", "1m ago", "-"]);
}

#[test]
fn tables_render_headers_and_cells() {
    let headers = vec!["alias".to_string(), "conversation".to_string()];
    let rows = vec![vec!["ops".to_string(), "0198c0c0".to_string()]];
    let s = table(&headers, &rows);
    assert!(s.starts_with('┌'));
    assert!(s.contains("alias"));
    assert!(s.contains("0198c0c0"));
    assert_ne!(s, "alias");

    let c = conv(ConversationKind::Group, Some("ops room"));
    let s = conversation_table(&vec![c], &vec![30]);
    assert!(s.contains("kind/title"));
    assert!(s.contains("group: ops room"));
    assert!(s.contains("just now"));

    let c = conv(ConversationKind::Group, None);
    let s = member_table(&c);
    assert!(s.contains("creator"));

    let a = AgentInfo {
        id: "0198a1a1-0000".into(),
        agent_key: Some("ops".into()),
        account_id: "0198acac-0000".into(),
        display_name: None,
        created_at: 0,
        last_seen_at: 0,
    };
    assert!(agent_table(&vec![a], &vec![0]).contains("last seen"));

    let t = TokenInfo {
        id: "0198dddd-0000".into(),
        label: "ci".into(),
        created_at: 0,
        last_used_at: None,
        last_user_agent: None,
        current: false,
    };
    assert!(token_table(&vec![t], &vec![0], &vec![None]).contains("never"));

    let mut al = Aliases::new();
    al.set_alias("ops", "0198c0c0-1111").unwrap();
    let s = alias_table(&al);
    assert!(s.contains("ops"));
    assert!(s.contains("0198c0c0"));
    assert!(!s.contains("0198c0c0-1111"));
}

#[test]
fn readiness_checks() {
    assert!(short_id_ok("0198abcd"));
    assert!(!short_id_ok("0198abc"));
    assert!(!short_id_ok("0198abcé"));
    let m = msg(None, Some("x"), vec![]);
    assert!(timeline_ready(&m));
    let mut short_sender = msg(None, Some("x"), vec![]);
    short_sender.sender_id = "abc".into();
    assert!(!timeline_ready(&short_sender));
    short_sender.sender_key = Some("ops".into());
    assert!(timeline_ready(&short_sender));
    let c = conv(ConversationKind::Group, None);
    assert!(conv_row_ready(&c));
    assert!(members_ready(&c));
    let mut bad = conv(ConversationKind::Group, None);
    bad.id = "c1".into();
    assert!(!conv_row_ready(&bad));
    assert!(members_ready(&bad));
}
