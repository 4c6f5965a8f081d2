use folkmoot::web::{cache_control, file_headers_with, file_name_of, serve_file_headers, spa_target};

#[test]
fn request_paths_name_files_below_the_root() {
    assert_eq!(spa_target("/").as_deref(), Some("index.html"));
    assert_eq!(spa_target("").as_deref(), Some("index.html"));
    assert_eq!(spa_target("//assets/app-1a2b.js").as_deref(), Some("assets/app-1a2b.js"));
    assert_eq!(spa_target("/conversations/abc").as_deref(), Some("conversations/abc"));
    assert_eq!(spa_target("/../etc/passwd"), None);
    assert_eq!(spa_target("/a/../b"), None);
    assert_eq!(spa_target("/a/..b").as_deref(), Some("a/..b"));
}

#[test]
fn file_names_of_paths() {
    let name = |p: &str| file_name_of(p).map(|v| v.into_iter().collect::<String>());
    assert_eq!(name("dist/assets/app-1a2b.js").as_deref(), Some("app-1a2b.js"));
    assert_eq!(name("dist/assets/").as_deref(), Some("assets"));
    assert_eq!(name("foo.txt/.").as_deref(), Some("foo.txt"));
    assert_eq!(name("/"), None);
    assert_eq!(name("dist/.."), None);
    assert_eq!(name("."), None);
}

#[test]
fn hashed_bundles_are_cached_long() {
    assert_eq!(cache_control("dist/assets/app-1a2b.js"), "public, max-age=31536000, immutable");
    assert_eq!(cache_control("dist/assets/app.js"), "no-cache");
    assert_eq!(cache_control("dist/index-2.html"), "no-cache");
    assert_eq!(cache_control("dist/index.html"), "no-cache");
    assert_eq!(cache_control("assets-dist/index-2.html"), "public, max-age=31536000, immutable");
}

#[test]
fn served_file_headers() {
    let h = serve_file_headers("dist/index.html");
    assert_eq!(h.content_type, "text/html");
    assert_eq!(h.cache_control, "no-cache");
    let h = serve_file_headers("dist/assets/app-1a2b.css");
    assert_eq!(h.content_type, "text/css");
    assert_eq!(h.cache_control, "public, max-age=31536000, immutable");
    let h = serve_file_headers("dist/blob.unknownext");
    assert_eq!(h.content_type, "application/octet-stream");
    let h = file_headers_with("dist/x.bin", "application/x-test".to_string());
    assert_eq!(h.content_type, "application/x-test");
}

#[test]
fn targets_stay_below_the_root() {
    for p in ["/", "//x", "/a/./b", "/../x", "/a/..", "..", "/.../x", "/a//..//b"] {
        if let Some(t) = spa_target(p) {
            assert!(!t.starts_with('/'));
            assert!(t.split('/').all(|s| s != ".."));
        }
    }
}
