use folkmoot::client::{
    agent_key_of_bytes, command_needs_agent, download_error, agent_line, aliases_path, api_url, body_or_null, choose_agent, config_dir, config_path,
    exit_code, full_id, history_path, http_error, is_success_status, normalize_base,
    parse_chat_line, poll_path, poll_wait, once_wait, random_agent_key, require_token,
    resolve_by_prefix, resolve_local, resolve_token_target, Aliases, ChatInput, CliError, Config, Defaults,
};
use folkmoot::protocol::{normalize_agent_key, IssuedToken, TokenInfo};

fn token(id: &str, current: bool) -> TokenInfo {
    TokenInfo {
        id: id.into(),
        label: String::new(),
        created_at: 0,
        last_used_at: None,
        last_user_agent: None,
        current,
    }
}

#[test]
fn exit_codes() {
    assert_eq!(exit_code(&CliError::local("x")), 12);
    assert_eq!(exit_code(&CliError::plain("x")), 20);
    let with = |s: u16| CliError { status: Some(s), code: None, message: String::new() };
    assert_eq!(exit_code(&with(401)), 10);
    assert_eq!(exit_code(&with(403)), 10);
    assert_eq!(exit_code(&with(404)), 11);
    assert_eq!(exit_code(&with(409)), 12);
    assert_eq!(exit_code(&with(413)), 12);
    assert_eq!(exit_code(&with(415)), 12);
    assert_eq!(exit_code(&with(422)), 12);
    assert_eq!(exit_code(&with(500)), 20);
    assert_eq!(exit_code(&with(503)), 20);
    assert_eq!(exit_code(&with(400)), 1);
}

#[test]
fn errors_render_with_their_code() {
    let e = http_error(404, Some(("not_found".into(), "conversation not found".into())), "{}");
    assert_eq!(e.status, Some(404));
    assert_eq!(e.render(), "not_found: conversation not found");
    let e = http_error(502, None, "bad gateway");
    assert_eq!(e.code, None);
    assert_eq!(e.render(), "http 502: bad gateway");
    assert_eq!(CliError::local("no conversation matches 'x'").status, Some(422));
}

#[test]
fn empty_success_bodies_read_as_null() {
    assert_eq!(body_or_null(String::new()), "null");
    assert_eq!(body_or_null("  \n".into()), "null");
    assert_eq!(body_or_null("{\"a\":1}".into()), "{\"a\":1}");
    assert!(is_success_status(Some(204)));
    assert!(!is_success_status(Some(404)));
    assert!(!is_success_status(None));
}

#[test]
fn urls() {
    assert_eq!(normalize_base("http://h:7420//"), "http://h:7420");
    assert_eq!(normalize_base("http://h"), "http://h");
    assert_eq!(api_url("http://h", "/me"), "http://h/api/v1/me");
}

#[test]
fn config_files() {
    assert_eq!(config_dir(Some("/home/u/.config")), "/home/u/.config/folkmoot");
    assert_eq!(config_path(Some("/home/u/.config")), "/home/u/.config/folkmoot/config.toml");
    assert_eq!(aliases_path(Some("/home/u/.config/")), "/home/u/.config/folkmoot/aliases.toml");
    assert_eq!(config_path(None), "./folkmoot/config.toml");
}

#[test]
fn settings_precedence() {
    let mut c = Config::default();
    assert_eq!(c.defaults.limit, 50);
    assert_eq!(c.defaults.wait_secs, 25);
    let d = Defaults::default();
    assert_eq!((d.limit, d.wait_secs), (50, 25));
    assert_eq!(c.resolve_server(None, None), "http://127.0.0.1:7420");
    c.server_url = Some("http://file".into());
    c.token = Some("t-file".into());
    assert_eq!(c.resolve_server(None, None), "http://file");
    assert_eq!(c.resolve_server(None, Some("http://env".into())), "http://env");
    assert_eq!(c.resolve_server(Some("http://flag"), Some("http://env".into())), "http://flag");
    assert_eq!(c.resolve_token(None, None).as_deref(), Some("t-file"));
    assert_eq!(c.resolve_token(Some("t-flag"), Some("t-env".into())).as_deref(), Some("t-flag"));
    assert_eq!(c.resolve_agent(None, None), None);
    assert_eq!(c.resolve_agent(None, Some("ops".into())).as_deref(), Some("ops"));
}

#[test]
fn registering_remembers_tokens() {
    let mut c = Config::default();
    let issued: Vec<IssuedToken> = (0..3)
        .map(|i| IssuedToken { id: format!("id{i}"), label: String::new(), token: format!("fm1_{i}") })
        .collect();
    assert!(c.remember_tokens("http://h", &issued));
    assert_eq!(c.token.as_deref(), Some("fm1_0"));
    assert_eq!(c.server_url.as_deref(), Some("http://h"));
    assert_eq!(c.extra_tokens, vec!["fm1_1", "fm1_2"]);
    let mut empty = Config::default();
    assert!(!empty.remember_tokens("http://h", &vec![]));
    assert_eq!(empty.token, None);
}

#[test]
fn agent_identity() {
    let k = random_agent_key();
    assert_eq!(k.len(), 8);
    assert!(k.chars().all(|c| c.is_ascii_lowercase() || c.is_ascii_digit()));
    assert_eq!(normalize_agent_key(&k).unwrap(), k);
    let (a, g) = choose_agent(Some("ops".into()), true);
    assert_eq!(a.as_deref(), Some("ops"));
    assert_eq!(g, None);
    let (a, g) = choose_agent(None, false);
    assert_eq!((a, g), (None, None));
    let (a, g) = choose_agent(None, true);
    assert_eq!(a, g);
    assert_eq!(a.unwrap().len(), 8);
    assert_eq!(agent_line(false, &Some("x7k2q9zz".into())).as_deref(), Some("agent id: x7k2q9zz"));
    assert_eq!(agent_line(true, &Some("x7k2q9zz".into())), None);
    assert_eq!(agent_line(false, &None), None);
    assert!(require_token(true).is_ok());
    assert_eq!(require_token(false).unwrap_err().message, "no token configured; run `folkmoot register` or pass --token");
}

#[test]
fn conversation_references() {
    assert!(full_id("0198a1b2-c3d4-7e5f-8a9b-0c1d2e3f4a5b"));
    assert!(!full_id("0198a1b2"));
    assert!(!full_id("0198a1b2-c3d4-7e5f-8a9b-0c1d2e3f4a5"));
    assert!(full_id("0198a1b2c3d4-7e5f-8a9b-0c1d2e3f4a5b-"));
    let ids: Vec<String> = vec!["0198aaaa-1".into(), "0198bbbb-2".into(), "0198bbcc-3".into()];
    assert_eq!(resolve_by_prefix(&ids, "0198a").unwrap(), "0198aaaa-1");
    let e = resolve_by_prefix(&ids, "0198b").unwrap_err();
    assert_eq!(e.status, Some(422));
    assert_eq!(e.message, "'0198b' is ambiguous (2 matches)");
    let e = resolve_by_prefix(&ids, "zz").unwrap_err();
    assert_eq!(e.message, "no conversation matches 'zz'");
    assert_eq!(exit_code(&e), 12);
}

#[test]
fn token_targets() {
    let ts = vec![token("aaaa1111", false), token("aabb2222", true), token("cccc3333", false)];
    assert_eq!(resolve_token_target(&ts, "cc", false).unwrap(), "cccc3333");
    let e = resolve_token_target(&ts, "aa", false).unwrap_err();
    assert_eq!(e.message, "'aa' is ambiguous");
    let e = resolve_token_target(&ts, "dd", false).unwrap_err();
    assert_eq!(e.status, Some(404));
    assert_eq!(e.message, "token 'dd' not found");
    assert_eq!(resolve_token_target(&ts, "current", true).unwrap(), "aabb2222");
    let e = resolve_token_target(&ts, "current", false).unwrap_err();
    assert!(e.message.starts_with("revoking the current token requires --force"));
    let none = vec![token("aaaa1111", false)];
    assert_eq!(resolve_token_target(&none, "current", true).unwrap_err().message, "no current token");
}

#[test]
fn aliases_read_after_write() {
    let mut a = Aliases::new();
    assert_eq!(a.set_alias("OPS", "0198aaaa-conv").unwrap(), "ops");
    assert_eq!(a.resolve("ops").as_deref(), Some("0198aaaa-conv"));
    assert_eq!(a.resolve("Ops").as_deref(), Some("0198aaaa-conv"));
    a.set_alias("dev", "0198bbbb-conv").unwrap();
    a.set_alias("ops", "0198cccc-conv").unwrap();
    assert_eq!(a.resolve("ops").as_deref(), Some("0198cccc-conv"));
    assert_eq!(a.resolve("dev").as_deref(), Some("0198bbbb-conv"));
    assert_eq!(a.conversations.len(), 2);
    assert!(a.set_alias("toolong", "x").is_err());
    assert!(a.set_alias("a-b", "x").is_err());
    let e = a.set_alias("ab", "x").unwrap_err();
    assert_eq!(e.message, "alias must be exactly 3 chars of [a-z0-9]");
    assert_eq!(exit_code(&e), 12);
    assert_eq!(a.remove_alias("OPS").unwrap(), "ops");
    assert_eq!(a.resolve("ops"), None);
    let e = a.remove_alias("ops").unwrap_err();
    assert_eq!(e.message, "alias 'ops' not found");
    assert_eq!(e.status, Some(422));
}

#[test]
fn aliases_are_kept_in_name_order() {
    let mut a = Aliases::new();
    for (k, v) in [("zed", "3"), ("abc", "1"), ("m00", "2"), ("9zz", "0")] {
        a.set_alias(k, v).unwrap();
    }
    let names: Vec<&str> = a.conversations.iter().map(|(k, _)| k.as_str()).collect();
    assert_eq!(names, ["9zz", "abc", "m00", "zed"]);
    a.insert("abc".into(), "9".into());
    assert_eq!(a.lookup("abc").as_deref(), Some("9"));
    assert!(a.remove_key("m00"));
    assert!(!a.remove_key("m00"));
    let names: Vec<&str> = a.conversations.iter().map(|(k, _)| k.as_str()).collect();
    assert_eq!(names, ["9zz", "abc", "zed"]);
}

#[test]
fn poll_parameters() {
    assert_eq!(poll_wait(0), 1);
    assert_eq!(poll_wait(10), 10);
    assert_eq!(poll_wait(60), 25);
    assert_eq!(once_wait(25, 7), 7);
    assert_eq!(once_wait(5, 7), 5);
    assert_eq!(once_wait(25, 0), 1);
    assert_eq!(poll_path("c1", "", 25), "/conversations/c1/messages?limit=50");
    assert_eq!(poll_path("c1", "m9", 25), "/conversations/c1/messages?after=m9&wait=25&limit=50");
    assert_eq!(history_path("c1", 20, None, None), "/conversations/c1/messages?limit=20");
    assert_eq!(
        history_path("c1", 20, Some("m1"), Some("m0")),
        "/conversations/c1/messages?limit=20&before=m1&after=m0"
    );
}

#[test]
fn chat_lines() {
    assert!(matches!(parse_chat_line(""), ChatInput::Empty));
    assert!(matches!(parse_chat_line("/quit"), ChatInput::Quit));
    assert!(matches!(parse_chat_line("/members"), ChatInput::Members));
    match parse_chat_line("/upload  chart.png ") {
        ChatInput::Upload(p) => assert_eq!(p, "chart.png"),
        _ => panic!("expected an upload"),
    }
    match parse_chat_line("/upload /upload x.png") {
        ChatInput::Upload(p) => assert_eq!(p, "x.png"),
        _ => panic!("expected an upload"),
    }
    match parse_chat_line("hello /quit") {
        ChatInput::Text(t) => assert_eq!(t, "hello /quit"),
        _ => panic!("expected text"),
    }
    match parse_chat_line("/upload") {
        ChatInput::Text(t) => assert_eq!(t, "/upload"),
        _ => panic!("expected text"),
    }
}

#[test]
fn download_errors_and_agent_needs() {
    let e = download_error(404, Some(("not_found".into(), "attachment not found".into())), "{..}".into());
    assert_eq!(e.render(), "not_found: attachment not found");
    let e = download_error(502, None, "bad gateway".into());
    assert_eq!((e.status, e.code, e.message.as_str()), (Some(502), None, "bad gateway"));
    assert!(!command_needs_agent("register"));
    assert!(!command_needs_agent("tokens"));
    assert!(!command_needs_agent("link"));
    assert!(!command_needs_agent("unlink"));
    assert!(command_needs_agent("send"));
    assert!(command_needs_agent("alias"));
}

#[test]
fn agent_keys_pick_the_alphabet_by_byte() {
    assert_eq!(agent_key_of_bytes(&vec![0, 1, 25, 26, 35, 36, 255, 100]), "abz09ad2");
    assert_eq!(agent_key_of_bytes(&vec![0; 8]), "aaaaaaaa");
}

#[test]
fn local_resolution_prefers_aliases_then_full_ids() {
    let full = "0198abcd-0000-7000-8000-000000000001";
    let mut a = Aliases::new();
    a.set_alias("ops", "0198aaaa-conv").unwrap();
    assert_eq!(resolve_local(&a, "OPS").as_deref(), Some("0198aaaa-conv"));
    assert_eq!(resolve_local(&a, full).as_deref(), Some(full));
    assert_eq!(resolve_local(&a, "0198ab"), None);
    a.set_alias("xyz", full).unwrap();
    assert_eq!(resolve_local(&a, "xyz").as_deref(), Some(full));
}
