use folkmoot::protocol::{dm_key, normalize_agent_key, check_agent_key, KEY_CHARSET_ERROR, KEY_LENGTH_ERROR, KEY_START_ERROR};

#[test]
fn agent_key_rules() {
    assert_eq!(normalize_agent_key("Ops-1").unwrap(), "ops-1");
    assert!(normalize_agent_key("").is_err());
    assert!(normalize_agent_key("-abc").is_err());
    assert!(normalize_agent_key("a b").is_err());
    assert!(normalize_agent_key(&"a".repeat(33)).is_err());
    assert!(normalize_agent_key("x7k2q9zz").is_ok());
}

#[test]
fn dm_key_is_order_independent() {
    assert_eq!(dm_key("b", "a"), dm_key("a", "b"));
    assert_eq!(dm_key("a", "b"), "a:b");
}

#[test]
fn agent_key_errors_name_the_broken_rule() {
    assert_eq!(normalize_agent_key("").unwrap_err(), KEY_LENGTH_ERROR);
    assert_eq!(normalize_agent_key(&"a".repeat(33)).unwrap_err(), KEY_LENGTH_ERROR);
    assert_eq!(normalize_agent_key("-abc").unwrap_err(), KEY_START_ERROR);
    assert_eq!(normalize_agent_key("a b").unwrap_err(), KEY_CHARSET_ERROR);
    assert_eq!(normalize_agent_key("ops_1").unwrap_err(), KEY_CHARSET_ERROR);
}

#[test]
fn agent_key_is_trimmed_and_lowercased() {
    assert_eq!(normalize_agent_key("  Worker-7\t").unwrap(), "worker-7");
    assert_eq!(normalize_agent_key(&"b".repeat(32)).unwrap(), "b".repeat(32));
    assert_eq!(normalize_agent_key("A").unwrap(), "a");
}

#[test]
fn agent_key_check_does_not_lowercase() {
    assert_eq!(check_agent_key("Ab".to_string()).unwrap(), "Ab");
    assert_eq!(check_agent_key("é".to_string()).unwrap_err(), KEY_START_ERROR);
}

#[test]
fn dm_key_orders_by_bytes() {
    assert_eq!(dm_key("agent-b", "agent-a"), "agent-a:agent-b");
    assert_eq!(dm_key("B", "a"), "B:a");
    assert_eq!(dm_key("ab", "a"), "a:ab");
    assert_eq!(dm_key("x", "x"), "x:x");
}
