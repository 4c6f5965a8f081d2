use folkmoot::errors::ErrorCode;
use folkmoot::files::{
    absolute_path, content_disposition, join_path, mime_of, plan_blob, sanitize_file_name,
    sha256_hex, sniff_image_type, storage_path_for, urlencoded,
};

#[test]
fn sniff_magic_bytes() {
    assert_eq!(sniff_image_type(&[0x89, 0x50, 0x4E, 0x47, 0x0D, 0x0A, 0x1A, 0x0A, 0]), Some("png"));
    assert_eq!(sniff_image_type(&[0xFF, 0xD8, 0xFF, 0xE0]), Some("jpeg"));
    assert_eq!(sniff_image_type(b"GIF89a..."), Some("gif"));
    assert_eq!(sniff_image_type(b"RIFF\x00\x00\x00\x00WEBP"), Some("webp"));
    assert_eq!(sniff_image_type(b"BM...."), Some("bmp"));
    assert_eq!(sniff_image_type(b"<svg>"), None);
    assert_eq!(sniff_image_type(&[0x89]), None);
}

#[test]
fn sanitize_names() {
    assert_eq!(sanitize_file_name("../../etc/passwd"), "passwd");
    assert_eq!(sanitize_file_name("a/b\\c.png"), "c.png");
    assert_eq!(sanitize_file_name(""), "file");
}

#[test]
fn sniff_edge_cases() {
    assert_eq!(sniff_image_type(b"GIF87a"), Some("gif"));
    assert_eq!(sniff_image_type(b"GIF88a"), None);
    assert_eq!(sniff_image_type(b"RIFF\x00\x00\x00\x00WEB"), None);
    assert_eq!(sniff_image_type(b"RIFX\x00\x00\x00\x00WEBP"), None);
    assert_eq!(sniff_image_type(&[0x89, 0x50, 0x4E, 0x47, 0x0D, 0x0A, 0x1A]), None);
    assert_eq!(sniff_image_type(&[0xFF, 0xD8]), None);
    assert_eq!(sniff_image_type(b""), None);
}

#[test]
fn mime_types_of_kinds() {
    assert_eq!(mime_of("png"), "image/png");
    assert_eq!(mime_of("jpeg"), "image/jpeg");
    assert_eq!(mime_of("gif"), "image/gif");
    assert_eq!(mime_of("webp"), "image/webp");
    assert_eq!(mime_of("bmp"), "image/bmp");
    assert_eq!(mime_of("svg"), "application/octet-stream");
}

#[test]
fn sha256_hex_of_known_inputs() {
    assert_eq!(
        sha256_hex(b"abc"),
        "ba7816bf8f01cfea414140de5dae2223b00361a396177a9cb410ff61f20015ad"
    );
    assert_eq!(
        sha256_hex(b""),
        "e3b0c44298fc1c149afbf4c8996fb92427ae41e4649b934ca495991b7852b855"
    );
}

#[test]
fn storage_paths_bucket_by_hash() {
    let h = "ba7816bf8f01cfea414140de5dae2223b00361a396177a9cb410ff61f20015ad";
    assert_eq!(storage_path_for(h), format!("ba/78/{h}"));
}

#[test]
fn absolute_paths_accept_only_storage_paths() {
    let h = "ba7816bf8f01cfea414140de5dae2223b00361a396177a9cb410ff61f20015ad";
    let rel = format!("ba/78/{h}");
    assert_eq!(absolute_path("/srv/uploads", &rel).unwrap(), format!("/srv/uploads/{rel}"));
    assert_eq!(absolute_path("/srv/uploads/", &rel).unwrap(), format!("/srv/uploads/{rel}"));
    let upper = format!("BA/78/{}", h.to_uppercase());
    assert!(absolute_path("/srv", &upper).is_ok());
    let e = absolute_path("/srv", "../../etc/passwd").unwrap_err();
    assert_eq!(e.code, ErrorCode::Internal);
    assert_eq!(e.message, "invalid storage path");
    assert!(absolute_path("/srv", &format!("ba/78/{h}/x")).is_err());
    assert!(absolute_path("/srv", &format!("ba/7/{h}")).is_err());
    assert!(absolute_path("/srv", &format!("ba/78/{}", &h[..63])).is_err());
    assert!(absolute_path("/srv", &format!("zz/78/{h}")).is_err());
}

#[test]
fn blobs_are_planned_from_their_content() {
    let allowed: Vec<String> = ["png", "jpeg", "gif", "webp"].iter().map(|s| s.to_string()).collect();
    let png = b"\x89PNG\r\n\x1a\nFAKEDATA";
    let b = plan_blob(&allowed, png).unwrap();
    let h = sha256_hex(png);
    assert_eq!(b.sha256, h);
    assert_eq!(b.storage_path, format!("{}/{}/{}", &h[0..2], &h[2..4], h));
    assert_eq!(b.content_type, "image/png");
    assert_eq!(b.size_bytes, 16);

    let bmp = plan_blob(&allowed, b"BM....").unwrap_err();
    assert_eq!(bmp.code, ErrorCode::UnsupportedMediaType);
    let svg = plan_blob(&allowed, b"<svg/>").unwrap_err();
    assert_eq!(svg.code, ErrorCode::UnsupportedMediaType);
    assert_eq!(svg.message, "unrecognized or unsupported image format");
}

#[test]
fn sanitize_trims_quotes_and_controls_and_caps_length() {
    assert_eq!(sanitize_file_name("\"chart.png\""), "chart.png");
    assert_eq!(sanitize_file_name("\u{7}chart.png\n"), "chart.png");
    assert_eq!(sanitize_file_name("dir/"), "file");
    assert_eq!(sanitize_file_name("a b.png"), "a b.png");
    let long = "x".repeat(200);
    assert_eq!(sanitize_file_name(&long), "x".repeat(128));
    let wide = "é".repeat(130);
    assert_eq!(sanitize_file_name(&wide), "é".repeat(128));
}

#[test]
fn urlencoding_keeps_unreserved_bytes() {
    assert_eq!(urlencoded("chart-1_v2.png~"), "chart-1_v2.png~");
    assert_eq!(urlencoded("a b/é"), "a%20b%2F%C3%A9");
    assert_eq!(urlencoded(""), "");
}

#[test]
fn content_disposition_has_ascii_fallback_and_utf8_name() {
    assert_eq!(
        content_disposition("chart.png"),
        "attachment; filename=\"chart.png\"; filename*=UTF-8''chart.png"
    );
    assert_eq!(
        content_disposition("../résumé \"v1\".png"),
        "attachment; filename=\"r_sum_ _v1_.png\"; filename*=UTF-8''r%C3%A9sum%C3%A9%20%22v1%22.png"
    );
    assert_eq!(
        content_disposition("a/evil.png"),
        "attachment; filename=\"evil.png\"; filename*=UTF-8''evil.png"
    );
}

#[test]
fn join_follows_unix_paths() {
    assert_eq!(join_path("/data", "uploads"), "/data/uploads");
    assert_eq!(join_path("/data/", "uploads"), "/data/uploads");
    assert_eq!(join_path("/data", "/abs"), "/abs");
    assert_eq!(join_path("", "x"), "x");
}

#[test]
fn sanitized_names_never_hold_paths() {
    for raw in ["../../etc/passwd", "a\\b/", "/", "\"\"", "x/\u{1}", "y".repeat(300).as_str(), "ok.png"] {
        let n = sanitize_file_name(raw);
        assert!(!n.is_empty() && n.chars().count() <= 128);
        assert!(!n.contains('/') && !n.contains('\\'));
    }
}

#[test]
fn content_disposition_is_always_ascii() {
    for name in ["图片.png", "файл", "\u{1F600}.gif", "日本語/名前.jpg", ""] {
        let d = content_disposition(name);
        assert!(d.is_ascii(), "{d}");
    }
}
