//! Serving the bundled web client: which file a request names, and the
//! headers a served file gets.

use vstd::prelude::*;

use crate::session::{split_char, split_chars, lemma_split_char_nonempty, lemma_split_without_sep};
use crate::text::{chars_contains, chars_eq, chars_of, contains_seq, string_of, to_owned_string};

verus! {

// ---------- request paths ----------

/// The path without its leading slashes (`trim_start_matches('/')`).
pub open spec fn strip_slashes(s: Seq<char>) -> Seq<char>
    decreases s.len(),
{
    if s.len() > 0 && s[0] == '/' {
        strip_slashes(s.drop_first())
    } else {
        s
    }
}

/// Some `/`-separated piece of the path is `..`.
pub open spec fn has_parent_segment(s: Seq<char>) -> bool {
    exists|i: int| 0 <= i < split_char(s, '/').len() && #[trigger] split_char(s, '/')[i] == ".."@
}

/// The file a request for `uri_path` names below the web root: `None` when
/// a piece of the path is `..` (the request is refused), `index.html` for
/// the root.
pub open spec fn spa_target_spec(uri_path: Seq<char>) -> Option<Seq<char>> {
    let p = strip_slashes(uri_path);
    if has_parent_segment(p) {
        None
    } else if p.len() == 0 {
        Some("index.html"@)
    } else {
        Some(p)
    }
}

proof fn lemma_strip_slashes(s: Seq<char>)
    ensures
        strip_slashes(s).len() > 0 ==> strip_slashes(s)[0] != '/',
    decreases s.len(),
{
    if s.len() > 0 && s[0] == '/' {
        lemma_strip_slashes(s.drop_first());
    }
}

/// Whatever a request asks for, the file it names stays below the web
/// root: a relative path (not starting with `/`) with no `..` piece.
pub proof fn law_spa_target_stays_below_root(uri_path: Seq<char>)
    ensures
        spa_target_spec(uri_path) matches Some(t) ==> t.len() > 0 && t[0] != '/'
            && !has_parent_segment(t),
{
    reveal_strlit("index.html");
    reveal_strlit("..");
    lemma_strip_slashes(uri_path);
    let i = "index.html"@;
    lemma_split_without_sep(i, '/');
    assert(split_char(i, '/') == seq![i]);
    if has_parent_segment(i) {
        let k = choose|k: int| 0 <= k < split_char(i, '/').len() && #[trigger] split_char(i, '/')[k]
            == ".."@;
        assert(i.len() != 2);
    }
}

pub open spec fn opt_chars(o: Option<String>) -> Option<Seq<char>> {
    match o {
        Some(s) => Some(s@),
        None => None,
    }
}

/// The file below the web root that a request path names, or `None` for a
/// request that climbs out of it (answered 400).
pub fn spa_target(uri_path: &str) -> (t: Option<String>)
    ensures
        opt_chars(t) == spa_target_spec(uri_path@),
{
    let v = chars_of(uri_path);
    let mut start: usize = 0;
    assert(v@.skip(0) =~= v@);
    while start < v.len() && v[start] == '/'
        invariant
            start <= v@.len(),
            strip_slashes(v@) == strip_slashes(v@.skip(start as int)),
        decreases v.len() - start,
    {
        assert(v@.skip(start as int).drop_first() =~= v@.skip(start + 1));
        start = start + 1;
    }
    let mut p: Vec<char> = Vec::new();
    let mut i: usize = start;
    while i < v.len()
        invariant
            start <= i <= v@.len(),
            p@ == v@.subrange(start as int, i as int),
        decreases v.len() - i,
    {
        p.push(v[i]);
        i = i + 1;
        assert(p@ =~= v@.subrange(start as int, i as int));
    }
    assert(p@ =~= v@.skip(start as int));
    assert(p@ == strip_slashes(uri_path@));
    let parts = split_chars(&p, '/');
    let dotdot = chars_of("..");
    let mut k: usize = 0;
    while k < parts.len()
        invariant
            k <= parts@.len(),
            parts@.len() == split_char(p@, '/').len(),
            forall|j: int| 0 <= j < parts@.len() ==> (#[trigger] parts@[j])@ == split_char(p@, '/')[j],
            dotdot@ == ".."@,
            p@ == strip_slashes(uri_path@),
            forall|j: int| 0 <= j < k ==> #[trigger] split_char(p@, '/')[j] != ".."@,
        decreases parts.len() - k,
    {
        if chars_eq(&parts[k], &dotdot) {
            assert(split_char(p@, '/')[k as int] == ".."@);
            return None;
        }
        k = k + 1;
    }
    if p.len() == 0 {
        Some(to_owned_string("index.html"))
    } else {
        Some(string_of(&p))
    }
}

// ---------- headers of served files ----------

/// The last piece of a split path that names something: empty and `.`
/// pieces are passed over; there is none when no piece is left or the last
/// one is `..`.
pub open spec fn last_named(segs: Seq<Seq<char>>) -> Option<Seq<char>>
    decreases segs.len(),
{
    if segs.len() == 0 {
        None
    } else if segs.last().len() == 0 || segs.last() == "."@ {
        last_named(segs.drop_last())
    } else if segs.last() == ".."@ {
        None
    } else {
        Some(segs.last())
    }
}

/// The final component of a path (`Path::file_name`).
pub open spec fn file_name_spec(path: Seq<char>) -> Option<Seq<char>> {
    last_named(split_char(path, '/'))
}

/// A content-hashed bundle file (its name holds `-`, its path `assets`)
/// is cached for a year; anything else is revalidated.
pub open spec fn long_lived(path: Seq<char>) -> bool {
    &&& match file_name_spec(path) {
        Some(n) => contains_seq(n, "-"@),
        None => false,
    }
    &&& contains_seq(path, "assets"@)
}

pub open spec fn cache_control_spec(path: Seq<char>) -> Seq<char> {
    if long_lived(path) {
        "public, max-age=31536000, immutable"@
    } else {
        "no-cache"@
    }
}

/// The final component of a path, when it has one.
pub fn file_name_of(path: &str) -> (n: Option<Vec<char>>)
    ensures
        match n {
            Some(v) => file_name_spec(path@) == Some(v@),
            None => file_name_spec(path@) is None,
        },
{
    let v = chars_of(path);
    let parts = split_chars(&v, '/');
    proof {
        lemma_split_char_nonempty(v@, '/');
    }
    let ghost segs = split_char(path@, '/');
    let dot = chars_of(".");
    let dotdot = chars_of("..");
    let mut k: usize = parts.len();
    assert(segs.take(k as int) =~= segs);
    while k > 0
        invariant
            k <= parts@.len(),
            parts@.len() == segs.len(),
            segs == split_char(path@, '/'),
            forall|j: int| 0 <= j < parts@.len() ==> (#[trigger] parts@[j])@ == segs[j],
            dot@ == "."@,
            dotdot@ == ".."@,
            last_named(segs) == last_named(segs.take(k as int)),
        decreases k,
    {
        let p = &parts[k - 1];
        let ghost t = segs.take(k as int);
        assert(t.last() == segs[k - 1]);
        assert(t.drop_last() =~= segs.take(k - 1));
        if p.len() == 0 || chars_eq(p, &dot) {
            k = k - 1;
        } else if chars_eq(p, &dotdot) {
            return None;
        } else {
            return Some(p.clone());
        }
    }
    None
}

/// Cache policy of a served file (`Cache-Control`).
pub fn cache_control(path: &str) -> (c: &'static str)
    ensures
        c@ == cache_control_spec(path@),
{
    let named = match file_name_of(path) {
        Some(n) => {
            let dash = chars_of("-");
            chars_contains(&n, &dash)
        },
        None => false,
    };
    let all = chars_of(path);
    let assets = chars_of("assets");
    if named && chars_contains(&all, &assets) {
        "public, max-age=31536000, immutable"
    } else {
        "no-cache"
    }
}

/// What `mime_guess` answers for a path: the first type registered for its
/// extension, `application/octet-stream` when there is none.
pub uninterp spec fn guessed_mime(path: Seq<char>) -> Seq<char>;

/// Whether the path's final component has the extension `ext` (which
/// holds no `.`), as `Path::extension` reads it: the name ends with `.ext`
/// and something stands before that dot.
pub open spec fn has_extension(path: Seq<char>, ext: Seq<char>) -> bool {
    match file_name_spec(path) {
        Some(n) => n.len() > ext.len() + 1 && n.skip(n.len() - ext.len() - 1) == seq!['.'] + ext,
        None => false,
    }
}

/// A file `<stem>.<ext>` in any directory has extension `ext`, whatever the
/// stem (if not empty, and free of `/`) and the directory: so
/// `serve_file_headers` gives a bundle's `.js` files `text/javascript`,
/// its `.css` files `text/css` and its pages `text/html`.
pub proof fn law_extension_of_named_file(dir: Seq<char>, stem: Seq<char>, ext: Seq<char>)
    requires
        stem.len() > 0,
        forall|i: int| 0 <= i < stem.len() ==> stem[i] != '/',
        forall|i: int| 0 <= i < ext.len() ==> ext[i] != '/' && ext[i] != '.',
        ext.len() > 0,
    ensures
        has_extension(dir + seq!['/'] + stem + seq!['.'] + ext, ext),
{
    let name = stem + seq!['.'] + ext;
    assert forall|i: int| 0 <= i < name.len() implies name[i] != '/' by {
        if i < stem.len() {
            assert(name[i] == stem[i]);
        } else if i > stem.len() {
            assert(name[i] == ext[i - stem.len() - 1]);
        }
    }
    crate::session::lemma_split_concat(dir, name, '/');
    crate::session::lemma_split_without_sep(name, '/');
    let segs = split_char(dir, '/') + seq![name];
    assert(dir + seq!['/'] + name =~= dir + seq!['/'] + stem + seq!['.'] + ext);
    assert(segs.last() == name);
    assert(name.len() > 0);
    assert(name.last() == ext.last());
    assert(name != "."@) by {
        if name == "."@ {
            reveal_strlit(".");
            assert(name.len() == 1);
        }
    }
    assert(name != ".."@) by {
        if name == ".."@ {
            reveal_strlit("..");
            assert(name[name.len() - 1] == '.');
        }
    }
    assert(name.skip(name.len() - ext.len() - 1) =~= seq!['.'] + ext);
}

/// `mime_guess::from_path(path).first_or_octet_stream()`, rendered. The
/// answer is a fixed table lookup on the path's extension; the contract
/// names it, and states the table's entries for the web client's own file
/// types: `js` is `text/javascript`, `css` is `text/css`, `html` and `htm`
/// are `text/html`. The other entries are left to the name.
#[verifier::external_body]
fn guess_mime(path: &str) -> (m: String)
    ensures
        m@ == guessed_mime(path@),
        has_extension(path@, "js"@) ==> m@ == "text/javascript"@,
        has_extension(path@, "css"@) ==> m@ == "text/css"@,
        has_extension(path@, "html"@) ==> m@ == "text/html"@,
        has_extension(path@, "htm"@) ==> m@ == "text/html"@,
{
    mime_guess::from_path(path).first_or_octet_stream().to_string()
}

/// The headers of a served file.
#[derive(Debug)]
pub struct FileHeaders {
    pub content_type: String,
    pub cache_control: String,
}

/// The headers for a file of the web client, given the type guessed from
/// its path.
pub fn file_headers_with(path: &str, mime: String) -> (h: FileHeaders)
    ensures
        h.content_type@ == mime@,
        h.cache_control@ == cache_control_spec(path@),
{
    let cache = cache_control(path);
    FileHeaders { content_type: mime, cache_control: to_owned_string(cache) }
}

/// The headers for a file of the web client at `path`.
pub fn serve_file_headers(path: &str) -> (h: FileHeaders)
    ensures
        h.content_type@ == guessed_mime(path@),
        h.cache_control@ == cache_control_spec(path@),
        has_extension(path@, "js"@) ==> h.content_type@ == "text/javascript"@,
        has_extension(path@, "css"@) ==> h.content_type@ == "text/css"@,
        has_extension(path@, "html"@) ==> h.content_type@ == "text/html"@,
        has_extension(path@, "htm"@) ==> h.content_type@ == "text/html"@,
{
    let mime = guess_mime(path);
    file_headers_with(path, mime)
}

} // verus!
