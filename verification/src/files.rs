//! File rules: image type sniffing by magic bytes, content-addressed
//! storage paths, path validation, download file names and headers.

use vstd::prelude::*;
use vstd::string::StringSliceAdditionalSpecFns;
use vstd::utf8::{decode_utf8, encode_utf8, is_char_boundary, valid_utf8, pop_first_scalar, length_of_first_scalar};

use crate::crypto::{sha256, sha256_digest};
use crate::errors::{ApiError, ErrorCode};
use crate::auth::hex_lower;
use crate::text::{
    chars_of, char_is_control, char_is_hex, hex_lower_spec, hex_digit_upper, is_control, is_hex,
    is_alnum_byte, is_lower_hex, byte_is_alnum, nibble_upper, push_char, push_chars, push_str,
    str_eq, string_of, lemma_hex_lower_is_lower_hex, to_owned_string,
};

verus! {

broadcast use vstd::utf8::encode_utf8_decode_utf8, vstd::utf8::encode_utf8_valid_utf8;

// ---------- sniffing ----------

/// The image type that the leading bytes announce (the client's claim is
/// not trusted): PNG, JPEG, GIF87a/89a, WebP (RIFF....WEBP), BMP.
pub open spec fn image_kind(b: Seq<u8>) -> Option<Seq<char>> {
    if b.len() >= 8 && b[0] == 0x89 && b[1] == 0x50 && b[2] == 0x4e && b[3] == 0x47 && b[4] == 0x0d
        && b[5] == 0x0a && b[6] == 0x1a && b[7] == 0x0a {
        Some("png"@)
    } else if b.len() >= 3 && b[0] == 0xff && b[1] == 0xd8 && b[2] == 0xff {
        Some("jpeg"@)
    } else if b.len() >= 6 && b[0] == 0x47 && b[1] == 0x49 && b[2] == 0x46 && b[3] == 0x38 && (b[4]
        == 0x37 || b[4] == 0x39) && b[5] == 0x61 {
        Some("gif"@)
    } else if b.len() >= 12 && b[0] == 0x52 && b[1] == 0x49 && b[2] == 0x46 && b[3] == 0x46 && b[8]
        == 0x57 && b[9] == 0x45 && b[10] == 0x42 && b[11] == 0x50 {
        Some("webp"@)
    } else if b.len() >= 2 && b[0] == 0x42 && b[1] == 0x4d {
        Some("bmp"@)
    } else {
        None
    }
}

pub open spec fn opt_str_view(o: Option<&str>) -> Option<Seq<char>> {
    match o {
        Some(s) => Some(s@),
        None => None,
    }
}

/// Sniffing goes by the signature alone: each format's leading bytes give
/// that format whatever follows them (a JPEG whatever its fourth byte, so
/// Exif and JFIF alike), markup such as SVG (`<`) is never an image, and no
/// other answer than the five formats is ever given.
pub proof fn law_sniff_by_signature(b: Seq<u8>)
    ensures
        b.len() >= 8 && b[0] == 0x89 && b[1] == 0x50 && b[2] == 0x4e && b[3] == 0x47 && b[4]
            == 0x0d && b[5] == 0x0a && b[6] == 0x1a && b[7] == 0x0a ==> image_kind(b) == Some(
            "png"@,
        ),
        b.len() >= 3 && b[0] == 0xff && b[1] == 0xd8 && b[2] == 0xff ==> image_kind(b) == Some(
            "jpeg"@,
        ),
        b.len() >= 6 && b[0] == 0x47 && b[1] == 0x49 && b[2] == 0x46 && b[3] == 0x38 && (b[4]
            == 0x37 || b[4] == 0x39) && b[5] == 0x61 ==> image_kind(b) == Some("gif"@),
        b.len() >= 12 && b[0] == 0x52 && b[1] == 0x49 && b[2] == 0x46 && b[3] == 0x46 && b[8]
            == 0x57 && b[9] == 0x45 && b[10] == 0x42 && b[11] == 0x50 ==> image_kind(b) == Some(
            "webp"@,
        ),
        b.len() >= 2 && b[0] == 0x42 && b[1] == 0x4d ==> image_kind(b) == Some("bmp"@),
        b.len() < 2 ==> image_kind(b) is None,
        b.len() > 0 && b[0] == 0x3c ==> image_kind(b) is None,
        image_kind(b) matches Some(k) ==> k == "png"@ || k == "jpeg"@ || k == "gif"@ || k
            == "webp"@ || k == "bmp"@,
{
}

/// Only the first 12 bytes are read: two inputs that agree on them are
/// sniffed alike, however they go on.
pub proof fn law_sniff_reads_header_only(a: Seq<u8>, b: Seq<u8>)
    requires
        a.len() >= 12,
        b.len() >= 12,
        a.take(12) == b.take(12),
    ensures
        image_kind(a) == image_kind(b),
{
    assert forall|i: int| 0 <= i < 12 implies a[i] == b[i] by {
        assert(a[i] == a.take(12)[i]);
        assert(b[i] == b.take(12)[i]);
    }
}

/// Magic-byte sniffing of the supported image types.
pub fn sniff_image_type(bytes: &[u8]) -> (r: Option<&'static str>)
    ensures
        opt_str_view(r) == image_kind(bytes@),
{
    let n = bytes.len();
    if n >= 8 && bytes[0] == 0x89 && bytes[1] == 0x50 && bytes[2] == 0x4e && bytes[3] == 0x47
        && bytes[4] == 0x0d && bytes[5] == 0x0a && bytes[6] == 0x1a && bytes[7] == 0x0a {
        Some("png")
    } else if n >= 3 && bytes[0] == 0xff && bytes[1] == 0xd8 && bytes[2] == 0xff {
        Some("jpeg")
    } else if n >= 6 && bytes[0] == 0x47 && bytes[1] == 0x49 && bytes[2] == 0x46 && bytes[3]
        == 0x38 && (bytes[4] == 0x37 || bytes[4] == 0x39) && bytes[5] == 0x61 {
        Some("gif")
    } else if n >= 12 && bytes[0] == 0x52 && bytes[1] == 0x49 && bytes[2] == 0x46 && bytes[3]
        == 0x46 && bytes[8] == 0x57 && bytes[9] == 0x45 && bytes[10] == 0x42 && bytes[11] == 0x50 {
        Some("webp")
    } else if n >= 2 && bytes[0] == 0x42 && bytes[1] == 0x4d {
        Some("bmp")
    } else {
        None
    }
}

/// The MIME type of a sniffed image type.
pub open spec fn mime_spec(kind: Seq<char>) -> Seq<char> {
    if kind == "png"@ {
        "image/png"@
    } else if kind == "jpeg"@ {
        "image/jpeg"@
    } else if kind == "gif"@ {
        "image/gif"@
    } else if kind == "webp"@ {
        "image/webp"@
    } else if kind == "bmp"@ {
        "image/bmp"@
    } else {
        "application/octet-stream"@
    }
}

pub fn mime_of(kind: &str) -> (m: &'static str)
    ensures
        m@ == mime_spec(kind@),
{
    if str_eq(kind, "png") {
        "image/png"
    } else if str_eq(kind, "jpeg") {
        "image/jpeg"
    } else if str_eq(kind, "gif") {
        "image/gif"
    } else if str_eq(kind, "webp") {
        "image/webp"
    } else if str_eq(kind, "bmp") {
        "image/bmp"
    } else {
        "application/octet-stream"
    }
}

// ---------- content addressing ----------

/// Lowercase hex SHA-256 of a blob.
pub fn sha256_hex(bytes: &[u8]) -> (h: String)
    ensures
        h@ == hex_lower_spec(sha256(bytes@)),
        h@.len() == 64,
{
    let d = sha256_digest(bytes);
    hex_lower(d.as_slice())
}

/// `ab/cd/<sha256>`: two levels of buckets named by the leading bytes.
pub open spec fn storage_path_spec(s: &str) -> Seq<char> {
    let b = s.spec_bytes();
    decode_utf8(b.subrange(0, 2)) + seq!['/'] + decode_utf8(b.subrange(2, 4)) + seq!['/'] + s@
}

/// The bucketed relative path of a blob named by its hash. `requires`
/// holds what slicing the name at bytes 2 and 4 needs.
pub fn storage_path_for(sha256: &str) -> (p: String)
    requires
        sha256.spec_bytes().len() >= 4,
        is_char_boundary(sha256.spec_bytes(), 2),
        is_char_boundary(sha256.spec_bytes().subrange(2, sha256.spec_bytes().len() as int), 2),
    ensures
        p@ == storage_path_spec(sha256),
{
    let ghost b = sha256.spec_bytes();
    let (a, rest) = sha256.split_at(2);
    assert(rest.spec_bytes() =~= b.subrange(2, b.len() as int));
    let (c, _tail) = rest.split_at(2);
    assert(c.spec_bytes() =~= b.subrange(2, 4));
    assert(a@ == decode_utf8(a.spec_bytes()));
    assert(c@ == decode_utf8(c.spec_bytes()));
    let mut p = String::new();
    push_str(&mut p, a);
    push_char(&mut p, '/');
    push_str(&mut p, c);
    push_char(&mut p, '/');
    push_str(&mut p, sha256);
    assert(p@ =~= storage_path_spec(sha256));
    p
}

proof fn lemma_ascii_boundaries(b: Seq<u8>, i: int)
    requires
        valid_utf8(b),
        forall|j: int| 0 <= j < b.len() ==> b[j] < 0x80,
        0 <= i <= b.len(),
    ensures
        is_char_boundary(b, i),
    decreases i,
{
    if i > 0 {
        assert(length_of_first_scalar(b) == 1);
        let p = pop_first_scalar(b);
        assert(valid_utf8(p));
        lemma_ascii_boundaries(p, i - 1);
    }
}

/// The storage path of an ASCII name, character by character.
pub open spec fn ascii_storage_path(h: Seq<char>) -> Seq<char> {
    h.take(2) + seq!['/'] + h.subrange(2, 4) + seq!['/'] + h
}

/// Every character is ASCII.
pub open spec fn all_ascii(h: Seq<char>) -> bool {
    vstd::utf8::is_ascii_chars(h)
}

/// For an ASCII name of at least 4 characters, `storage_path_for` may be
/// called and cuts the name at characters 2 and 4.
pub proof fn lemma_ascii_storage_path(s: &str)
    requires
        all_ascii(s@),
        s@.len() >= 4,
    ensures
        s.spec_bytes().len() >= 4,
        is_char_boundary(s.spec_bytes(), 2),
        is_char_boundary(s.spec_bytes().subrange(2, s.spec_bytes().len() as int), 2),
        storage_path_spec(s) == ascii_storage_path(s@),
{
    let h = s@;
    let b = s.spec_bytes();
    assert(vstd::utf8::is_ascii_chars(h));
    vstd::utf8::is_ascii_chars_encode_utf8(h);
    assert forall|j: int| 0 <= j < b.len() implies b[j] < 0x80 by {
        assert(b[j] == h[j] as u8);
    }
    lemma_ascii_boundaries(b, 2);
    let r = b.subrange(2, b.len() as int);
    vstd::utf8::valid_utf8_split(b, 2);
    lemma_ascii_boundaries(r, 2);
    let h2 = h.take(2);
    let h24 = h.subrange(2, 4);
    assert(vstd::utf8::is_ascii_chars(h2));
    assert(vstd::utf8::is_ascii_chars(h24));
    vstd::utf8::is_ascii_chars_encode_utf8(h2);
    vstd::utf8::is_ascii_chars_encode_utf8(h24);
    assert(encode_utf8(h2) =~= b.subrange(0, 2)) by {
        assert forall|j: int| 0 <= j < 2 implies encode_utf8(h2)[j] == b.subrange(0, 2)[j] by {
            assert(h2[j] == h[j]);
        }
    }
    assert(encode_utf8(h24) =~= b.subrange(2, 4)) by {
        assert forall|j: int| 0 <= j < 2 implies encode_utf8(h24)[j] == b.subrange(2, 4)[j] by {
            assert(h24[j] == h[j + 2]);
        }
    }
    assert(decode_utf8(encode_utf8(h2)) == h2);
    assert(decode_utf8(encode_utf8(h24)) == h24);
}

/// A stored path as `absolute_path` accepts it: `ab/cd/<64 hex>`.
pub open spec fn valid_storage_path(s: Seq<char>) -> bool {
    &&& s.len() == 70
    &&& s[2] == '/'
    &&& s[5] == '/'
    &&& forall|i: int| 0 <= i < 70 && i != 2 && i != 5 ==> is_hex(#[trigger] s[i])
}

/// `PathBuf::join` on Unix: an absolute part replaces the base; otherwise
/// the part is appended, with a `/` unless the base is empty or ends in one.
pub open spec fn join_path_spec(base: Seq<char>, part: Seq<char>) -> Seq<char> {
    if part.len() > 0 && part[0] == '/' {
        part
    } else if base.len() == 0 || base.last() == '/' {
        base + part
    } else {
        base + seq!['/'] + part
    }
}

pub fn join_path(base: &str, part: &str) -> (p: String)
    ensures
        p@ == join_path_spec(base@, part@),
{
    let bv = chars_of(base);
    let pv = chars_of(part);
    if pv.len() > 0 && pv[0] == '/' {
        return string_of(&pv);
    }
    let mut p = string_of(&bv);
    if !(bv.len() == 0 || bv[bv.len() - 1] == '/') {
        push_char(&mut p, '/');
    }
    push_chars(&mut p, &pv);
    p
}

/// Resolves a stored path under the uploads root after checking that it
/// has the `ab/cd/<64 hex>` form (no client input reaches the file system).
pub fn absolute_path(uploads_root: &str, storage_path: &str) -> (r: Result<String, ApiError>)
    ensures
        valid_storage_path(storage_path@) ==> (r matches Ok(p) && p@ == join_path_spec(
            uploads_root@,
            storage_path@,
        )),
        !valid_storage_path(storage_path@) ==> (r matches Err(e) && e.code == ErrorCode::Internal),
{
    let v = chars_of(storage_path);
    let mut valid = v.len() == 70;
    if valid {
        valid = v[2] == '/' && v[5] == '/';
    }
    if valid {
        let mut i: usize = 0;
        while i < 70
            invariant
                v@.len() == 70,
                i <= 70,
                valid ==> forall|j: int| 0 <= j < i && j != 2 && j != 5 ==> is_hex(#[trigger] v@[j]),
                !valid ==> exists|j: int| 0 <= j < 70 && j != 2 && j != 5 && !is_hex(#[trigger] v@[j]),
            decreases 70 - i,
        {
            if i != 2 && i != 5 && !char_is_hex(v[i]) {
                valid = false;
            }
            i = i + 1;
        }
    }
    if !valid {
        return Err(ApiError::internal("invalid storage path"));
    }
    Ok(join_path(uploads_root, storage_path))
}

/// A blob's content-addressed location and metadata, decided before any write.
#[derive(Debug, Clone)]
pub struct StoredBlob {
    pub sha256: String,
    pub storage_path: String,
    pub content_type: String,
    pub size_bytes: u64,
}

/// The stored path of every blob is accepted by `absolute_path`.
pub proof fn law_blob_path_is_valid(digest: Seq<u8>)
    requires
        digest.len() == 32,
    ensures
        valid_storage_path(ascii_storage_path(hex_lower_spec(digest))),
{
    let h = hex_lower_spec(digest);
    lemma_hex_lower_is_lower_hex(digest);
    let p = ascii_storage_path(h);
    assert forall|i: int| 0 <= i < 70 && i != 2 && i != 5 implies is_hex(#[trigger] p[i]) by {
        if i < 2 {
            assert(p[i] == h[i]);
        } else if i < 5 {
            assert(p[i] == h[i - 1]);
        } else {
            assert(p[i] == h[i - 6]);
        }
    }
}

/// Checks an upload before it is written: the sniffed type must be one of
/// the allowed ones (415 otherwise); the blob is then named by its SHA-256.
pub fn plan_blob(allowed_types: &Vec<String>, bytes: &[u8]) -> (r: Result<StoredBlob, ApiError>)
    ensures
        match image_kind(bytes@) {
            None => r matches Err(e) && e.code == ErrorCode::UnsupportedMediaType,
            Some(k) => if exists|i: int| 0 <= i < allowed_types.len() && (#[trigger] allowed_types[i])@
                == k {
                r matches Ok(b) && {
                    &&& b.sha256@ == hex_lower_spec(sha256(bytes@))
                    &&& b.storage_path@ == ascii_storage_path(b.sha256@)
                    &&& valid_storage_path(b.storage_path@)
                    &&& b.content_type@ == mime_spec(k)
                    &&& b.size_bytes == bytes@.len()
                }
            } else {
                r matches Err(e) && e.code == ErrorCode::UnsupportedMediaType
            },
        },
{
    let kind = match sniff_image_type(bytes) {
        Some(k) => k,
        None => {
            return Err(
                ApiError::new(
                    ErrorCode::UnsupportedMediaType,
                    "unrecognized or unsupported image format",
                ),
            );
        },
    };
    let mut allowed = false;
    let mut i: usize = 0;
    while i < allowed_types.len()
        invariant
            i <= allowed_types.len(),
            allowed <==> exists|j: int| 0 <= j < i && (#[trigger] allowed_types[j])@ == kind@,
        decreases allowed_types.len() - i,
    {
        if str_eq(allowed_types[i].as_str(), kind) {
            allowed = true;
        }
        i = i + 1;
    }
    if !allowed {
        let mut msg = String::new();
        push_str(&mut msg, "image type ");
        push_str(&mut msg, kind);
        push_str(&mut msg, " not allowed");
        return Err(ApiError::new(ErrorCode::UnsupportedMediaType, msg.as_str()));
    }
    let sha = sha256_hex(bytes);
    let sha_str = sha.as_str();
    proof {
        lemma_hex_lower_is_lower_hex(sha256(bytes@));
        assert forall|j: int| 0 <= j < sha_str@.len() implies '\0' <= #[trigger] sha_str@[j] <= '\u{7f}' by {
            assert(is_lower_hex(sha@[j]));
        }
        assert(all_ascii(sha_str@));
        lemma_ascii_storage_path(sha_str);
        let digest = sha256(bytes@);
        assert(hex_lower_spec(digest).len() == 64);
        assert(digest.len() == 32);
        law_blob_path_is_valid(digest);
    }
    let path = storage_path_for(sha_str);
    let ct = to_owned_string(mime_of(kind));
    Ok(StoredBlob { sha256: sha, storage_path: path, content_type: ct, size_bytes: bytes.len() as u64 })
}

// ---------- file names ----------

pub open spec fn is_path_sep(c: char) -> bool {
    c == '/' || c == '\\'
}

/// What follows the last `/` or `\` (`rsplit(['/', '\\']).next()`).
pub open spec fn last_segment(s: Seq<char>) -> Seq<char>
    decreases s.len(),
{
    if s.len() == 0 {
        s
    } else if is_path_sep(s.last()) {
        Seq::<char>::empty()
    } else {
        last_segment(s.drop_last()).push(s.last())
    }
}

/// Characters stripped from both ends of a file name.
pub open spec fn is_name_junk(c: char) -> bool {
    is_control(c) || c == '"'
}

pub open spec fn leading_junk(s: Seq<char>) -> nat
    decreases s.len(),
{
    if s.len() > 0 && is_name_junk(s[0]) {
        1 + leading_junk(s.drop_first())
    } else {
        0
    }
}

pub open spec fn trailing_junk(s: Seq<char>) -> nat
    decreases s.len(),
{
    if s.len() > 0 && is_name_junk(s.last()) {
        1 + trailing_junk(s.drop_last())
    } else {
        0
    }
}

/// `s` with control characters and `"` trimmed from both ends.
pub open spec fn trim_junk(s: Seq<char>) -> Seq<char> {
    let t = s.skip(leading_junk(s) as int);
    t.take(t.len() - trailing_junk(t))
}

/// The name a download is offered under: the last path segment, without
/// surrounding control characters and quotes, at most 128 characters;
/// `file` when nothing is left.
pub open spec fn sanitized_name(s: Seq<char>) -> Seq<char> {
    let base = trim_junk(last_segment(s));
    if base.len() == 0 {
        "file"@
    } else if base.len() <= 128 {
        base
    } else {
        base.take(128)
    }
}

proof fn lemma_last_segment_plain(s: Seq<char>)
    ensures
        forall|i: int|
            0 <= i < last_segment(s).len() ==> !is_path_sep(#[trigger] last_segment(s)[i]),
    decreases s.len(),
{
    if s.len() > 0 && !is_path_sep(s.last()) {
        lemma_last_segment_plain(s.drop_last());
        let p = last_segment(s.drop_last());
        assert forall|i: int| 0 <= i < p.push(s.last()).len() implies !is_path_sep(
            #[trigger] p.push(s.last())[i],
        ) by {
            if i < p.len() {
                assert(p.push(s.last())[i] == p[i]);
            }
        }
    }
}

proof fn lemma_junk_bounds(s: Seq<char>)
    ensures
        leading_junk(s) <= s.len(),
        trailing_junk(s) <= s.len(),
    decreases s.len(),
{
    if s.len() > 0 {
        lemma_junk_bounds(s.drop_first());
        lemma_junk_bounds(s.drop_last());
    }
}

/// A download is never offered under a name that holds a path: the name
/// has 1 to 128 characters, none of them `/` or `\`.
pub proof fn law_sanitized_name_is_plain(s: Seq<char>)
    ensures
        1 <= sanitized_name(s).len() <= 128,
        forall|i: int|
            0 <= i < sanitized_name(s).len() ==> !is_path_sep(#[trigger] sanitized_name(s)[i]),
{
    reveal_strlit("file");
    let seg = last_segment(s);
    lemma_last_segment_plain(s);
    lemma_junk_bounds(seg);
    let lead = leading_junk(seg) as int;
    let t = seg.skip(lead);
    lemma_junk_bounds(t);
    let base = t.take(t.len() - trailing_junk(t));
    assert(base == trim_junk(seg));
    assert forall|i: int| 0 <= i < base.len() implies !is_path_sep(#[trigger] base[i]) by {
        assert(base[i] == seg[i + lead]);
    }
    if base.len() > 128 {
        assert forall|i: int| 0 <= i < base.take(128).len() implies !is_path_sep(
            #[trigger] base.take(128)[i],
        ) by {
            assert(base.take(128)[i] == base[i]);
        }
    }
}

proof fn lemma_leading_junk(s: Seq<char>, i: int)
    requires
        0 <= i <= s.len(),
        forall|j: int| 0 <= j < i ==> is_name_junk(#[trigger] s[j]),
        i == s.len() || !is_name_junk(s[i]),
    ensures
        leading_junk(s) == i,
    decreases s.len(),
{
    if i > 0 {
        lemma_leading_junk(s.drop_first(), i - 1);
    }
}

proof fn lemma_trailing_junk(s: Seq<char>, k: int)
    requires
        0 <= k <= s.len(),
        forall|j: int| s.len() - k <= j < s.len() ==> is_name_junk(#[trigger] s[j]),
        k == s.len() || !is_name_junk(s[s.len() - k - 1]),
    ensures
        trailing_junk(s) == k,
    decreases s.len(),
{
    if k > 0 {
        lemma_trailing_junk(s.drop_last(), k - 1);
    }
}

proof fn lemma_last_segment(s: Seq<char>, start: int)
    requires
        0 <= start <= s.len(),
        forall|j: int| start <= j < s.len() ==> !is_path_sep(#[trigger] s[j]),
        start == 0 || is_path_sep(s[start - 1]),
    ensures
        last_segment(s) == s.skip(start),
    decreases s.len(),
{
    if s.len() == start {
        if start > 0 {
            assert(s.last() == s[start - 1]);
        }
        assert(s.skip(start) =~= Seq::<char>::empty());
        if start == 0 {
            assert(s =~= Seq::<char>::empty());
        }
    } else {
        lemma_last_segment(s.drop_last(), start);
        assert(s.drop_last().skip(start).push(s.last()) =~= s.skip(start));
    }
}

/// The file name offered for download (basename, no separators).
pub fn sanitize_file_name(name: &str) -> (r: String)
    ensures
        r@ == sanitized_name(name@),
{
    let v = chars_of(name);
    let n = v.len();
    // start of the last segment
    let mut start: usize = n;
    while start > 0 && !(v[start - 1] == '/' || v[start - 1] == '\\')
        invariant
            n == v.len(),
            start <= n,
            forall|j: int| start <= j < n ==> !is_path_sep(#[trigger] v@[j]),
        decreases start,
    {
        start = start - 1;
    }
    proof {
        lemma_last_segment(v@, start as int);
    }
    let ghost seg = v@.skip(start as int);
    let mut i: usize = start;
    while i < n && (char_is_control(v[i]) || v[i] == '"')
        invariant
            n == v.len(),
            start <= i <= n,
            forall|j: int| start <= j < i ==> is_name_junk(#[trigger] v@[j]),
        decreases n - i,
    {
        i = i + 1;
    }
    proof {
        assert forall|j: int| 0 <= j < i - start implies is_name_junk(#[trigger] seg[j]) by {
            assert(seg[j] == v@[j + start]);
        }
        if i < n {
            assert(seg[i - start] == v@[i as int]);
        }
        lemma_leading_junk(seg, i - start);
    }
    let ghost t = seg.skip(i - start);
    let mut e: usize = n;
    while e > i && (char_is_control(v[e - 1]) || v[e - 1] == '"')
        invariant
            n == v.len(),
            i <= e <= n,
            forall|j: int| e <= j < n ==> is_name_junk(#[trigger] v@[j]),
        decreases e,
    {
        e = e - 1;
    }
    proof {
        assert(t =~= v@.skip(i as int));
        assert forall|j: int| t.len() - (n - e) <= j < t.len() implies is_name_junk(
            #[trigger] t[j],
        ) by {
            assert(t[j] == v@[j + i]);
        }
        if n - e != t.len() {
            assert(t[t.len() - (n - e) - 1] == v@[e - 1]);
        }
        lemma_trailing_junk(t, (n - e) as int);
    }
    let ghost base = trim_junk(seg);
    assert(base =~= v@.subrange(i as int, e as int));
    if e == i {
        return to_owned_string("file");
    }
    let stop = if e - i <= 128 {
        e
    } else {
        i + 128
    };
    let mut out: Vec<char> = Vec::new();
    let mut k: usize = i;
    while k < stop
        invariant
            n == v.len(),
            i <= k <= stop <= e <= n,
            out@ == v@.subrange(i as int, k as int),
        decreases stop - k,
    {
        out.push(v[k]);
        k = k + 1;
        assert(out@ =~= v@.subrange(i as int, k as int));
    }
    assert(out@ =~= sanitized_name(name@));
    string_of(&out)
}

// ---------- download headers ----------

/// Bytes kept as they are in a percent-encoded name: letters, digits, `-_.~`.
pub open spec fn is_unreserved(b: u8) -> bool {
    is_alnum_byte(b) || b == 0x2d || b == 0x5f || b == 0x2e || b == 0x7e
}

/// Percent-encoding of one byte (uppercase hex).
pub open spec fn pct_byte(b: u8) -> Seq<char> {
    if is_unreserved(b) {
        seq![b as char]
    } else {
        seq!['%', hex_digit_upper((b / 16) as int), hex_digit_upper((b % 16) as int)]
    }
}

/// Percent-encoding of a byte sequence, byte by byte.
pub open spec fn pct_encode(b: Seq<u8>) -> Seq<char>
    decreases b.len(),
{
    if b.len() == 0 {
        Seq::<char>::empty()
    } else {
        pct_encode(b.drop_last()) + pct_byte(b.last())
    }
}

/// Percent-encodes the UTF-8 bytes of a string (RFC 5987 `filename*`).
pub fn urlencoded(s: &str) -> (r: String)
    ensures
        r@ == pct_encode(s.spec_bytes()),
{
    let bytes = s.as_bytes();
    let mut out = String::new();
    let mut i: usize = 0;
    while i < bytes.len()
        invariant
            i <= bytes.len(),
            out@ == pct_encode(bytes@.take(i as int)),
        decreases bytes.len() - i,
    {
        let b = bytes[i];
        assert(bytes@.take((i + 1) as int).drop_last() =~= bytes@.take(i as int));
        if byte_is_alnum(b) || b == 0x2d || b == 0x5f || b == 0x2e || b == 0x7e {
            push_char(&mut out, b as char);
        } else {
            push_char(&mut out, '%');
            push_char(&mut out, nibble_upper(b / 16));
            push_char(&mut out, nibble_upper(b % 16));
        }
        i = i + 1;
        assert(out@ =~= pct_encode(bytes@.take(i as int)));
    }
    assert(bytes@.take(i as int) =~= bytes@);
    out
}

/// ASCII stand-in of a name: non-ASCII characters and `"` become `_`.
pub open spec fn ascii_fallback(s: Seq<char>) -> Seq<char> {
    Seq::new(s.len(), |i: int| if (s[i] as u32) < 0x80 && s[i] != '"' { s[i] } else { '_' })
}

/// `Content-Disposition` of a download: `attachment; filename="<ascii>";
/// filename*=UTF-8''<percent-encoded name>`, of the sanitised name.
pub open spec fn disposition_spec(name: Seq<char>) -> Seq<char> {
    let f = sanitized_name(name);
    "attachment; filename=\""@ + ascii_fallback(f) + "\"; filename*=UTF-8''"@ + pct_encode(
        encode_utf8(f),
    )
}

pub fn content_disposition(file_name: &str) -> (d: String)
    ensures
        d@ == disposition_spec(file_name@),
{
    let fname = sanitize_file_name(file_name);
    let fv = chars_of(fname.as_str());
    let mut ascii: Vec<char> = Vec::new();
    let mut i: usize = 0;
    while i < fv.len()
        invariant
            i <= fv.len(),
            ascii@ == ascii_fallback(fv@).take(i as int),
        decreases fv.len() - i,
    {
        let c = fv[i];
        if (c as u32) < 0x80 && c != '"' {
            ascii.push(c);
        } else {
            ascii.push('_');
        }
        i = i + 1;
        assert(ascii@ =~= ascii_fallback(fv@).take(i as int));
    }
    assert(ascii@ =~= ascii_fallback(fv@));
    let encoded = urlencoded(fname.as_str());
    let mut d = String::new();
    push_str(&mut d, "attachment; filename=\"");
    push_chars(&mut d, &ascii);
    push_str(&mut d, "\"; filename*=UTF-8''");
    push_str(&mut d, encoded.as_str());
    assert(d@ =~= disposition_spec(file_name@));
    d
}


/// Every character has a code below 0x80.
pub open spec fn ascii_text(s: Seq<char>) -> bool {
    forall|i: int| 0 <= i < s.len() ==> (#[trigger] s[i] as u32) < 0x80
}

proof fn lemma_pct_encode_ascii(b: Seq<u8>)
    ensures
        ascii_text(pct_encode(b)),
    decreases b.len(),
{
    if b.len() > 0 {
        lemma_pct_encode_ascii(b.drop_last());
        let x = b.last();
        let a = pct_encode(b.drop_last());
        let p = pct_byte(x);
        assert(ascii_text(p));
        assert forall|i: int| 0 <= i < (a + p).len() implies ((#[trigger] (a + p)[i]) as u32)
            < 0x80 by {
            if i < a.len() {
                assert((a + p)[i] == a[i]);
            } else {
                assert((a + p)[i] == p[i - a.len()]);
            }
        }
    }
}

/// A download's `Content-Disposition` is plain ASCII whatever the stored
/// name holds, so it is always a valid header value.
pub proof fn law_disposition_is_ascii(name: Seq<char>)
    ensures
        ascii_text(disposition_spec(name)),
{
    reveal_strlit("attachment; filename=\"");
    reveal_strlit("\"; filename*=UTF-8''");
    let f = sanitized_name(name);
    let s1 = "attachment; filename=\""@;
    let s2 = ascii_fallback(f);
    let s3 = "\"; filename*=UTF-8''"@;
    lemma_pct_encode_ascii(encode_utf8(f));
    let s4 = pct_encode(encode_utf8(f));
    assert(ascii_text(s1));
    assert(ascii_text(s2));
    assert(ascii_text(s3));
    let d = s1 + s2 + s3 + s4;
    assert forall|i: int| 0 <= i < d.len() implies ((#[trigger] d[i]) as u32) < 0x80 by {
        if i < s1.len() {
            assert(d[i] == s1[i]);
        } else if i < s1.len() + s2.len() {
            assert(d[i] == s2[i - s1.len()]);
        } else if i < s1.len() + s2.len() + s3.len() {
            assert(d[i] == s3[i - s1.len() - s2.len()]);
        } else {
            assert(d[i] == s4[i - s1.len() - s2.len() - s3.len()]);
        }
    }
    assert(d == disposition_spec(name));
}

} // verus!
