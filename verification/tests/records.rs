use folkmoot::errors::ErrorCode;
use folkmoot::protocol::ConversationKind;
use folkmoot::records::{agent_ref_key, kind_db_name, kind_from_db, new_id};

#[test]
fn ids_are_hyphenated_uuids() {
    let id = new_id();
    assert_eq!(id.len(), 36);
    for (i, c) in id.chars().enumerate() {
        if [8, 13, 18, 23].contains(&i) {
            assert_eq!(c, '-');
        } else {
            assert!(c.is_ascii_hexdigit() && !c.is_ascii_uppercase());
        }
    }
    assert_eq!(&id[14..15], "7");
    assert_ne!(new_id(), new_id());
}

#[test]
fn kinds_round_trip_through_the_store() {
    assert_eq!(kind_db_name(ConversationKind::Dm), "dm");
    assert_eq!(kind_db_name(ConversationKind::Group), "group");
    assert_eq!(kind_from_db("dm"), ConversationKind::Dm);
    assert_eq!(kind_from_db("group"), ConversationKind::Group);
    assert_eq!(kind_from_db("other"), ConversationKind::Group);
    for k in [ConversationKind::Dm, ConversationKind::Group] {
        assert_eq!(kind_from_db(kind_db_name(k)), k);
    }
}

#[test]
fn agent_references_become_keys() {
    assert_eq!(agent_ref_key(" Worker ").unwrap(), "worker");
    let e = agent_ref_key("-bad").unwrap_err();
    assert_eq!(e.code, ErrorCode::ValidationError);
    assert_eq!(e.message, "agent key must start with [a-z0-9]");
}
