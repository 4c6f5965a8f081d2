use folkmoot::settings::{database_file, registration_flag, server_args, uploads_dir, Config};

#[test]
fn server_defaults() {
    let c = Config::default();
    assert_eq!(c.bind, "127.0.0.1:7420");
    assert_eq!(c.data_dir, "data");
    assert_eq!(c.max_upload_bytes, 20 * 1024 * 1024);
    assert_eq!(c.max_attachments_per_message, 9);
    assert!(c.allow_registration);
    assert_eq!(c.allowed_image_types, vec!["png", "jpeg", "gif", "webp"]);
    assert!(c.cors_origins.is_empty());
    assert!(!c.secure_cookies);
    assert_eq!(c.web_dist, None);
}

#[test]
fn registration_switch() {
    assert!(registration_flag("1"));
    assert!(registration_flag("true"));
    assert!(registration_flag("yes"));
    assert!(!registration_flag("TRUE"));
    assert!(!registration_flag("0"));
    assert!(!registration_flag(""));
}

#[test]
fn server_command_line() {
    let args: Vec<String> = ["folkmoot-server", "--config", "/etc/fm.toml"].iter().map(|s| s.to_string()).collect();
    let a = server_args(&args);
    assert!(!a.print_openapi);
    assert_eq!(a.config.as_deref(), Some("/etc/fm.toml"));
    let args: Vec<String> = ["folkmoot-server", "--print-openapi", "--config"].iter().map(|s| s.to_string()).collect();
    let a = server_args(&args);
    assert!(a.print_openapi);
    assert_eq!(a.config, None);
    let args: Vec<String> = ["s", "--config", "a", "--config", "b"].iter().map(|s| s.to_string()).collect();
    assert_eq!(server_args(&args).config.as_deref(), Some("a"));
}

#[test]
fn data_layout() {
    assert_eq!(uploads_dir("data"), "data/uploads");
    assert_eq!(database_file("/var/lib/fm/"), "/var/lib/fm/folkmoot.db");
}
