//! The command-line client's decisions: errors and exit codes, request
//! URLs, settings precedence, agent identity, conversation and token
//! references, local conversation aliases, and the `listen` / `chat` loops.

use vstd::prelude::*;
use vstd::string::StringSliceAdditionalSpecFns;
use vstd::utf8::encode_utf8;

use crate::crypto::random_u8;
use crate::protocol::{IssuedToken, TokenInfo, agent_key_outcome, key_charset_ok};
use crate::files::{join_path, join_path_spec};
use crate::session::{opt_string_view, opt_view};
use crate::text::{
    chars_count, chars_eq, chars_match_at, chars_of, chars_starts_with, count_char, decimal, has_prefix, is_alnum,
    is_digit, is_lower, lex_lt, lemma_lex_lt_asymmetric, lemma_lex_lt_total, lemma_lex_lt_transitive,
    lowercase, push_char, push_chars, push_str, str_eq, str_lt, string_of,
    to_lowercase, to_owned_string, trim, trim_chars, u64_to_decimal, char_is_alnum,
};

verus! {

// ---------- errors and exit codes ----------

/// An error of the command-line client: the HTTP status when the server
/// answered, the error code of its body, and a message.
#[derive(Debug)]
pub struct CliError {
    pub status: Option<u16>,
    pub code: Option<String>,
    pub message: String,
}

impl CliError {
    /// A locally detected, actionable error (exit code 12).
    pub fn local(message: &str) -> (e: Self)
        ensures
            e.status == Some(422u16),
            e.code is None,
            e.message@ == message@,
    {
        CliError { status: Some(422), code: None, message: to_owned_string(message) }
    }

    /// An error that no HTTP status explains (exit code 20).
    pub fn plain(message: &str) -> (e: Self)
        ensures
            e.status is None,
            e.code is None,
            e.message@ == message@,
    {
        CliError { status: None, code: None, message: to_owned_string(message) }
    }

    /// The error as printed: `code: message`, or the message alone.
    pub fn render(&self) -> (s: String)
        ensures
            s@ == match self.code {
                Some(c) => c@ + seq![':', ' '] + self.message@,
                None => self.message@,
            },
    {
        let mut s = String::new();
        match &self.code {
            Some(c) => {
                push_str(&mut s, c.as_str());
                push_char(&mut s, ':');
                push_char(&mut s, ' ');
                push_str(&mut s, self.message.as_str());
            },
            None => {
                push_str(&mut s, self.message.as_str());
            },
        }
        assert(s@ =~= match self.code {
            Some(c) => c@ + seq![':', ' '] + self.message@,
            None => self.message@,
        });
        s
    }
}

/// The exit code of an error: 10 auth (401/403), 11 not found, 12 client
/// error (409/413/415/422), 20 server error or no answer, 1 otherwise.
pub open spec fn exit_code_spec(status: Option<u16>) -> i32 {
    match status {
        Some(s) => if s == 401 || s == 403 {
            10
        } else if s == 404 {
            11
        } else if s == 409 || s == 413 || s == 415 || s == 422 {
            12
        } else if s >= 500 {
            20
        } else {
            1
        },
        None => 20,
    }
}

pub fn exit_code(err: &CliError) -> (c: i32)
    ensures
        c == exit_code_spec(err.status),
{
    match err.status {
        Some(401) | Some(403) => 10,
        Some(404) => 11,
        Some(409) | Some(413) | Some(415) | Some(422) => 12,
        Some(s) if s >= 500 => 20,
        Some(_) => 1,
        None => 20,
    }
}

/// The error of a failed HTTP exchange: the parsed error body's code and
/// message when it had one, else `http <status>: <body>`.
pub fn http_error(status: u16, parsed: Option<(String, String)>, body: &str) -> (e: CliError)
    ensures
        e.status == Some(status),
        match parsed {
            Some((c, m)) => e.code == Some(c) && e.message == m,
            None => e.code is None && e.message@ == "http "@ + decimal(status as nat) + seq![
                ':',
                ' ',
            ] + body@,
        },
{
    match parsed {
        Some((c, m)) => CliError { status: Some(status), code: Some(c), message: m },
        None => {
            let mut msg = String::new();
            push_str(&mut msg, "http ");
            let st = u64_to_decimal(status as u64);
            push_str(&mut msg, st.as_str());
            push_char(&mut msg, ':');
            push_char(&mut msg, ' ');
            push_str(&mut msg, body);
            assert(msg@ =~= "http "@ + decimal(status as nat) + seq![':', ' '] + body@);
            CliError { status: Some(status), code: None, message: msg }
        },
    }
}

/// The error of a failed download: the parsed error body's code and
/// message when it had one, else the body as the message.
pub fn download_error(status: u16, parsed: Option<(String, String)>, body: String) -> (e: CliError)
    ensures
        e.status == Some(status),
        match parsed {
            Some((c, m)) => e.code == Some(c) && e.message == m,
            None => e.code is None && e.message == body,
        },
{
    match parsed {
        Some((c, m)) => CliError { status: Some(status), code: Some(c), message: m },
        None => CliError { status: Some(status), code: None, message: body },
    }
}

/// A successful answer with an empty body is read as JSON `null`.
pub fn body_or_null(text: String) -> (t: String)
    ensures
        trim(text@).len() == 0 ==> t@ == "null"@,
        trim(text@).len() != 0 ==> t == text,
{
    let v = chars_of(text.as_str());
    let tv = trim_chars(&v);
    if tv.len() == 0 {
        to_owned_string("null")
    } else {
        text
    }
}

/// An error that still carries a success status counts as success (an
/// empty 2xx body that could not be decoded).
pub fn is_success_status(status: Option<u16>) -> (r: bool)
    ensures
        r == (status matches Some(s) && s < 300),
{
    match status {
        Some(s) => s < 300,
        None => false,
    }
}

// ---------- requests ----------

/// `s` without trailing `/` (`trim_end_matches('/')`).
pub open spec fn trim_trailing_slashes(s: Seq<char>) -> Seq<char>
    decreases s.len(),
{
    if s.len() > 0 && s.last() == '/' {
        trim_trailing_slashes(s.drop_last())
    } else {
        s
    }
}

/// The server's base URL without trailing slashes.
pub fn normalize_base(base: &str) -> (b: String)
    ensures
        b@ == trim_trailing_slashes(base@),
{
    let v = chars_of(base);
    let mut n = v.len();
    assert(v@.take(n as int) =~= v@);
    while n > 0 && v[n - 1] == '/'
        invariant
            n <= v.len(),
            trim_trailing_slashes(v@) == trim_trailing_slashes(v@.take(n as int)),
        decreases n,
    {
        assert(v@.take(n as int).drop_last() =~= v@.take(n - 1));
        n = n - 1;
    }
    let mut out: Vec<char> = Vec::new();
    let mut i: usize = 0;
    while i < n
        invariant
            n <= v.len(),
            i <= n,
            out@ == v@.take(i as int),
        decreases n - i,
    {
        out.push(v[i]);
        i = i + 1;
        assert(out@ =~= v@.take(i as int));
    }
    string_of(&out)
}

/// URL of an API path: `<base>/api/v1<path>`.
pub fn api_url(base: &str, path: &str) -> (u: String)
    ensures
        u@ == base@ + "/api/v1"@ + path@,
{
    let mut u = String::new();
    push_str(&mut u, base);
    push_str(&mut u, "/api/v1");
    push_str(&mut u, path);
    assert(u@ =~= base@ + "/api/v1"@ + path@);
    u
}

// ---------- settings ----------

/// Defaults of the client's configuration file.
#[derive(Debug, Clone)]
pub struct Defaults {
    pub limit: u32,
    pub wait_secs: u64,
}

impl Default for Defaults {
    /// 50 messages per page; 25-second long polls.
    fn default() -> (d: Self)
        ensures
            d.limit == 50,
            d.wait_secs == 25,
    {
        Defaults { limit: 50, wait_secs: 25 }
    }
}

/// The client's configuration directory, `folkmoot` below the user's
/// configuration directory (`base`; the working directory when unknown).
pub open spec fn config_dir_spec(base: Option<Seq<char>>) -> Seq<char> {
    join_path_spec(
        match base {
            Some(b) => b,
            None => "."@,
        },
        "folkmoot"@,
    )
}

pub fn config_dir(base: Option<&str>) -> (d: String)
    ensures
        d@ == config_dir_spec(opt_view(base)),
{
    match base {
        Some(b) => join_path(b, "folkmoot"),
        None => join_path(".", "folkmoot"),
    }
}

/// The configuration file, `config.toml` in the configuration directory.
pub fn config_path(base: Option<&str>) -> (p: String)
    ensures
        p@ == join_path_spec(config_dir_spec(opt_view(base)), "config.toml"@),
{
    let d = config_dir(base);
    join_path(d.as_str(), "config.toml")
}

/// The alias file, `aliases.toml` in the configuration directory.
pub fn aliases_path(base: Option<&str>) -> (p: String)
    ensures
        p@ == join_path_spec(config_dir_spec(opt_view(base)), "aliases.toml"@),
{
    let d = config_dir(base);
    join_path(d.as_str(), "aliases.toml")
}

/// The client's configuration (`config.toml`).
#[derive(Debug, Clone)]
pub struct Config {
    pub server_url: Option<String>,
    pub token: Option<String>,
    pub default_agent: Option<String>,
    pub extra_tokens: Vec<String>,
    pub defaults: Defaults,
}

pub open spec fn first_some(a: Option<Seq<char>>, b: Option<Seq<char>>, c: Option<Seq<char>>) -> Option<
    Seq<char>,
> {
    if a is Some {
        a
    } else if b is Some {
        b
    } else {
        c
    }
}

fn pick(flag: Option<&str>, env: Option<String>, file: &Option<String>) -> (r: Option<String>)
    ensures
        opt_string_view(r) == first_some(crate::session::opt_view(flag), opt_string_view(env), opt_string_view(*file)),
{
    match flag {
        Some(f) => Some(to_owned_string(f)),
        None => match env {
            Some(e) => Some(e),
            None => match file {
                Some(s) => Some(s.clone()),
                None => None,
            },
        },
    }
}

impl Default for Config {
    /// An empty configuration with the default settings.
    fn default() -> (c: Self)
        ensures
            c.server_url is None,
            c.token is None,
            c.default_agent is None,
            c.extra_tokens@.len() == 0,
            c.defaults.limit == 50,
            c.defaults.wait_secs == 25,
    {
        Config {
            server_url: None,
            token: None,
            default_agent: None,
            extra_tokens: Vec::new(),
            defaults: Defaults::default(),
        }
    }
}

impl Config {

    /// Server URL: flag, then `FOLKMOOT_SERVER` (its value is passed in),
    /// then the file, then `http://127.0.0.1:7420`.
    pub fn resolve_server(&self, flag: Option<&str>, env: Option<String>) -> (s: String)
        ensures
            s@ == match first_some(
                crate::session::opt_view(flag),
                opt_string_view(env),
                opt_string_view(self.server_url),
            ) {
                Some(v) => v,
                None => "http://127.0.0.1:7420"@,
            },
    {
        match pick(flag, env, &self.server_url) {
            Some(s) => s,
            None => to_owned_string("http://127.0.0.1:7420"),
        }
    }

    /// Token: flag, then `FOLKMOOT_TOKEN`, then the file.
    pub fn resolve_token(&self, flag: Option<&str>, env: Option<String>) -> (t: Option<String>)
        ensures
            opt_string_view(t) == first_some(
                crate::session::opt_view(flag),
                opt_string_view(env),
                opt_string_view(self.token),
            ),
    {
        pick(flag, env, &self.token)
    }

    /// Agent key: flag, then `FOLKMOOT_AGENT`, then the file.
    pub fn resolve_agent(&self, flag: Option<&str>, env: Option<String>) -> (a: Option<String>)
        ensures
            opt_string_view(a) == first_some(
                crate::session::opt_view(flag),
                opt_string_view(env),
                opt_string_view(self.default_agent),
            ),
    {
        pick(flag, env, &self.default_agent)
    }

    /// After registering, the first issued token becomes the configured
    /// one and the others are kept as extra tokens; nothing changes when
    /// no token was issued.
    pub fn remember_tokens(&mut self, server: &str, tokens: &Vec<IssuedToken>) -> (saved: bool)
        ensures
            saved == (tokens@.len() > 0),
            saved ==> {
                &&& final(self).token matches Some(t) && t@ == tokens@[0].token@
                &&& final(self).server_url matches Some(s) && s@ == server@
                &&& final(self).extra_tokens@.len() == tokens@.len() - 1
                &&& forall|i: int|
                    0 <= i < tokens@.len() - 1 ==> (#[trigger] final(self).extra_tokens@[i])@
                        == tokens@[i + 1].token@
                &&& final(self).default_agent == old(self).default_agent
            },
            !saved ==> *final(self) == *old(self),
    {
        if tokens.len() == 0 {
            return false;
        }
        self.token = Some(tokens[0].token.clone());
        self.server_url = Some(to_owned_string(server));
        let mut extra: Vec<String> = Vec::new();
        let mut i: usize = 1;
        while i < tokens.len()
            invariant
                1 <= i <= tokens.len(),
                extra@.len() == i - 1,
                forall|k: int| 0 <= k < i - 1 ==> (#[trigger] extra@[k])@ == tokens@[k + 1].token@,
            decreases tokens.len() - i,
        {
            extra.push(tokens[i].token.clone());
            i = i + 1;
        }
        self.extra_tokens = extra;
        true
    }
}

/// Settings are taken from the first source that gives one: command-line
/// flag, environment, configuration file.
pub proof fn law_settings_precedence(
    flag: Option<Seq<char>>,
    env: Option<Seq<char>>,
    file: Option<Seq<char>>,
)
    ensures
        flag is Some ==> first_some(flag, env, file) == flag,
        flag is None && env is Some ==> first_some(flag, env, file) == env,
        flag is None && env is None ==> first_some(flag, env, file) == file,
{
}

// ---------- agent identity ----------

pub open spec fn is_key_char(c: char) -> bool {
    is_lower(c) || is_digit(c)
}

/// The characters an agent key is drawn from.
pub open spec fn key_alphabet() -> Seq<char> {
    "abcdefghijklmnopqrstuvwxyz0123456789"@
}

/// The key character a drawn byte selects: the alphabet at the byte mod 36.
pub open spec fn key_char_spec(b: u8) -> char {
    key_alphabet()[(b % 36) as int]
}

proof fn lemma_key_alphabet()
    ensures
        key_alphabet().len() == 36,
        forall|i: int| 0 <= i < 36 ==> is_key_char(#[trigger] key_alphabet()[i]),
{
    reveal_strlit("abcdefghijklmnopqrstuvwxyz0123456789");
    assert(key_alphabet() =~= seq![
        'a', 'b', 'c', 'd', 'e', 'f', 'g', 'h', 'i', 'j', 'k', 'l', 'm', 'n', 'o', 'p', 'q',
        'r', 's', 't', 'u', 'v', 'w', 'x', 'y', 'z', '0', '1', '2', '3', '4', '5', '6', '7',
        '8', '9',
    ]);
}

fn key_char(b: u8) -> (c: char)
    ensures
        c == key_char_spec(b),
        is_key_char(c),
{
    let alphabet = "abcdefghijklmnopqrstuvwxyz0123456789";
    proof {
        lemma_key_alphabet();
    }
    alphabet.get_char((b % 36) as usize)
}

/// The agent key made from 8 drawn bytes, one character per byte.
pub fn agent_key_of_bytes(bytes: &Vec<u8>) -> (k: String)
    requires
        bytes@.len() == 8,
    ensures
        k@ == Seq::new(8, |i: int| key_char_spec(bytes@[i])),
        forall|i: int| 0 <= i < 8 ==> is_key_char(#[trigger] k@[i]),
{
    let mut v: Vec<char> = Vec::new();
    let mut i: usize = 0;
    while i < 8
        invariant
            i <= 8,
            bytes@.len() == 8,
            v@ == Seq::new(i as nat, |j: int| key_char_spec(bytes@[j])),
            forall|j: int| 0 <= j < i ==> is_key_char(#[trigger] v@[j]),
        decreases 8 - i,
    {
        v.push(key_char(bytes[i]));
        i = i + 1;
        assert(v@ =~= Seq::new(i as nat, |j: int| key_char_spec(bytes@[j])));
    }
    string_of(&v)
}

/// A random 8-character agent key of `[a-z0-9]`.
pub fn random_agent_key() -> (k: String)
    ensures
        k@.len() == 8,
        forall|i: int| 0 <= i < 8 ==> is_key_char(#[trigger] k@[i]),
{
    let mut bytes: Vec<u8> = Vec::new();
    let mut i: usize = 0;
    while i < 8
        invariant
            i <= 8,
            bytes@.len() == i,
        decreases 8 - i,
    {
        bytes.push(random_u8());
        i = i + 1;
    }
    agent_key_of_bytes(&bytes)
}

/// Every generated agent key passes the server's key check unchanged.
pub proof fn law_random_key_is_valid(k: Seq<char>)
    requires
        k.len() == 8,
        forall|i: int| 0 <= i < 8 ==> is_key_char(#[trigger] k[i]),
    ensures
        agent_key_outcome(k) == Ok::<Seq<char>, &'static str>(k),
{
    assert(vstd::utf8::is_ascii_chars(k));
    vstd::utf8::is_ascii_chars_encode_utf8(k);
    let b = encode_utf8(k);
    assert(b[0] == k[0] as u8);
    assert forall|i: int| 0 <= i < b.len() implies crate::text::is_alnum_byte(#[trigger] b[i])
        || b[i] == 0x2d by {
        assert(b[i] == k[i] as u8);
    }
}

/// The agent a command acts as: the configured one; otherwise, for the
/// commands that act as an agent, a new random key, which is also reported
/// as generated.
pub fn choose_agent(configured: Option<String>, needs_agent: bool) -> (r: (Option<String>, Option<String>))
    ensures
        configured is Some ==> r.0 == configured && r.1 is None,
        configured is None && !needs_agent ==> r.0 is None && r.1 is None,
        configured is None && needs_agent ==> (r.0 matches Some(a) && r.1 == Some(a) && a@.len()
            == 8),
{
    match configured {
        Some(a) => (Some(a), None),
        None => if needs_agent {
            let k = random_agent_key();
            let k2 = k.clone();
            (Some(k), Some(k2))
        } else {
            (None, None)
        },
    }
}

/// Whether a command acts as an agent: all but `register`, `link`,
/// `unlink` and `tokens`.
pub fn command_needs_agent(command: &str) -> (b: bool)
    ensures
        b == !(command@ == "register"@ || command@ == "link"@ || command@ == "unlink"@
            || command@ == "tokens"@),
{
    !(str_eq(command, "register") || str_eq(command, "link") || str_eq(command, "unlink")
        || str_eq(command, "tokens"))
}

/// The line that reports a generated agent key, in human output only.
pub fn agent_line(json: bool, generated: &Option<String>) -> (l: Option<String>)
    ensures
        json || generated is None ==> l is None,
        !json && generated is Some ==> (l matches Some(s) && s@ == "agent id: "@
            + generated->0@),
{
    if json {
        return None;
    }
    match generated {
        Some(id) => {
            let mut s = String::new();
            push_str(&mut s, "agent id: ");
            push_str(&mut s, id.as_str());
            assert(s@ =~= "agent id: "@ + id@);
            Some(s)
        },
        None => None,
    }
}

/// Commands that talk to the server need a token.
pub fn require_token(has_token: bool) -> (r: Result<(), CliError>)
    ensures
        r is Ok <==> has_token,
        r matches Err(e) ==> e.status is None,
{
    if has_token {
        Ok(())
    } else {
        Err(CliError::plain("no token configured; run `folkmoot register` or pass --token"))
    }
}

// ---------- references ----------

/// A complete conversation id: 36 bytes with 4 dashes.
pub open spec fn is_full_id(r: &str) -> bool {
    r.spec_bytes().len() == 36 && count_char(r@, '-') == 4
}

pub fn full_id(reference: &str) -> (b: bool)
    ensures
        b == is_full_id(reference),
{
    let n = reference.as_bytes().len();
    let v = chars_of(reference);
    n == 36 && chars_count(&v, '-') == 4
}

/// Every identifier the server issues is a complete id for the client.
pub proof fn law_issued_ids_are_full(id: &str)
    requires
        crate::crypto::is_hyphenated_uuid(id@),
    ensures
        is_full_id(id),
{
    let s = id@;
    assert forall|i: int| 0 <= i < s.len() implies '\0' <= #[trigger] s[i] <= '\u{7f}' by {
        if i != 8 && i != 13 && i != 18 && i != 23 {
            assert(crate::text::is_lower_hex(s[i]));
        }
    }
    assert(vstd::utf8::is_ascii_chars(s));
    vstd::utf8::is_ascii_chars_encode_utf8(s);
    assert(id.spec_bytes() == encode_utf8(s));
    lemma_count_dashes(s, 36);
    assert(s.take(36) =~= s);
}

proof fn lemma_count_dashes(s: Seq<char>, n: int)
    requires
        crate::crypto::is_hyphenated_uuid(s),
        0 <= n <= 36,
    ensures
        count_char(s.take(n), '-') == (if n > 8 {
            1int
        } else {
            0
        }) + (if n > 13 {
            1int
        } else {
            0
        }) + (if n > 18 {
            1int
        } else {
            0
        }) + (if n > 23 {
            1int
        } else {
            0
        }),
    decreases n,
{
    if n > 0 {
        lemma_count_dashes(s, n - 1);
        assert(s.take(n).drop_last() =~= s.take(n - 1));
        assert(s.take(n).last() == s[n - 1]);
        let c = s[n - 1];
        if n - 1 != 8 && n - 1 != 13 && n - 1 != 18 && n - 1 != 23 {
            assert(crate::text::is_lower_hex(c));
        }
    } else {
        assert(s.take(0) =~= Seq::<char>::empty());
    }
    if n == 36 {
        assert(s.take(36) =~= s);
    }
}

/// What a reference resolves to given the listed ids: the one id it starts,
/// or a local error when none or several match.
pub open spec fn prefix_matches(ids: Seq<Seq<char>>, r: Seq<char>) -> Seq<Seq<char>>
    decreases ids.len(),
{
    if ids.len() == 0 {
        Seq::<Seq<char>>::empty()
    } else {
        let rest = prefix_matches(ids.drop_last(), r);
        if has_prefix(ids.last(), r) {
            rest.push(ids.last())
        } else {
            rest
        }
    }
}

fn matching_ids(ids: &Vec<String>, reference: &str) -> (m: Vec<String>)
    ensures
        crate::messaging::views(m@) == prefix_matches(crate::messaging::views(ids@), reference@),
{
    let rv = chars_of(reference);
    let mut m: Vec<String> = Vec::new();
    let mut i: usize = 0;
    assert(crate::messaging::views(ids@).take(0) =~= Seq::<Seq<char>>::empty());
    assert(crate::messaging::views(m@) =~= Seq::<Seq<char>>::empty());
    while i < ids.len()
        invariant
            i <= ids.len(),
            rv@ == reference@,
            crate::messaging::views(m@) == prefix_matches(
                crate::messaging::views(ids@).take(i as int),
                reference@,
            ),
        decreases ids.len() - i,
    {
        let ghost vs = crate::messaging::views(ids@);
        assert(vs.take((i + 1) as int).drop_last() =~= vs.take(i as int));
        assert(vs.take((i + 1) as int).last() == ids@[i as int]@);
        let cv = chars_of(ids[i].as_str());
        if chars_starts_with(&cv, &rv) {
            let ghost before = crate::messaging::views(m@);
            m.push(ids[i].clone());
            assert(crate::messaging::views(m@) =~= before.push(ids@[i as int]@));
        }
        i = i + 1;
    }
    assert(crate::messaging::views(ids@).take(i as int) =~= crate::messaging::views(ids@));
    m
}

/// Resolves a conversation reference against the listed conversation ids:
/// the unique id it is a prefix of; none or several: a local error (12).
pub fn resolve_by_prefix(ids: &Vec<String>, reference: &str) -> (r: Result<String, CliError>)
    ensures
        ({
            let ms = prefix_matches(crate::messaging::views(ids@), reference@);
            &&& ms.len() == 1 ==> (r matches Ok(id) && id@ == ms[0])
            &&& ms.len() != 1 ==> (r matches Err(e) && e.status == Some(422u16))
        }),
{
    let m = matching_ids(ids, reference);
    if m.len() == 1 {
        return Ok(m[0].clone());
    }
    let mut msg = String::new();
    if m.len() == 0 {
        push_str(&mut msg, "no conversation matches '");
        push_str(&mut msg, reference);
        push_str(&mut msg, "'");
    } else {
        push_str(&mut msg, "'");
        push_str(&mut msg, reference);
        push_str(&mut msg, "' is ambiguous (");
        let n = u64_to_decimal(m.len() as u64);
        push_str(&mut msg, n.as_str());
        push_str(&mut msg, " matches)");
    }
    Err(CliError::local(msg.as_str()))
}

/// A prefix match names an id that the reference starts.
pub proof fn law_prefix_matches_start_with(ids: Seq<Seq<char>>, r: Seq<char>)
    ensures
        forall|i: int|
            0 <= i < prefix_matches(ids, r).len() ==> has_prefix(
                #[trigger] prefix_matches(ids, r)[i],
                r,
            ),
        forall|i: int|
            0 <= i < ids.len() && has_prefix(ids[i], r) ==> prefix_matches(ids, r).contains(
                #[trigger] ids[i],
            ),
    decreases ids.len(),
{
    if ids.len() > 0 {
        law_prefix_matches_start_with(ids.drop_last(), r);
        let rest = prefix_matches(ids.drop_last(), r);
        assert forall|i: int| 0 <= i < ids.len() && has_prefix(ids[i], r) implies prefix_matches(
            ids,
            r,
        ).contains(#[trigger] ids[i]) by {
            if i < ids.len() - 1 {
                assert(ids.drop_last()[i] == ids[i]);
                assert(rest.contains(ids[i]));
                if has_prefix(ids.last(), r) {
                    let k = choose|k: int| 0 <= k < rest.len() && rest[k] == ids[i];
                    assert(rest.push(ids.last())[k] == ids[i]);
                }
            } else {
                assert(rest.push(ids.last())[rest.len() as int] == ids.last());
            }
        }
    }
}

/// The first token marked as the one in use.
pub open spec fn first_current(ts: Seq<TokenInfo>) -> Option<int>
    decreases ts.len(),
{
    if ts.len() == 0 {
        None
    } else if ts[0].current {
        Some(0)
    } else {
        match first_current(ts.drop_first()) {
            Some(k) => Some(k + 1),
            None => None,
        }
    }
}

proof fn lemma_first_current(ts: Seq<TokenInfo>, k: int)
    requires
        0 <= k <= ts.len(),
        forall|j: int| 0 <= j < k ==> !(#[trigger] ts[j]).current,
    ensures
        k == ts.len() ==> first_current(ts) is None,
        k < ts.len() && ts[k].current ==> first_current(ts) == Some(k),
    decreases k,
{
    if k > 0 {
        let rest = ts.drop_first();
        assert forall|j: int| 0 <= j < k - 1 implies !(#[trigger] rest[j]).current by {
            assert(rest[j] == ts[j + 1]);
        }
        lemma_first_current(rest, k - 1);
        if k < ts.len() {
            assert(rest[k - 1] == ts[k]);
        }
    }
}

/// The token that `tokens revoke <id>` names: `current` is the token in
/// use (only with `--force`); otherwise the unique token whose id starts
/// with `id` (none: 404; several: ambiguous).
pub fn resolve_token_target(tokens: &Vec<TokenInfo>, id: &str, force: bool) -> (r: Result<
    String,
    CliError,
>)
    ensures
        id@ == "current"@ ==> match first_current(tokens@) {
            Some(k) => if force {
                r matches Ok(t) && t@ == tokens@[k].id@
            } else {
                r matches Err(e) && e.status is None
            },
            None => r matches Err(e) && e.status is None,
        },
        id@ != "current"@ ==> ({
            let ids = tokens@.map_values(|t: TokenInfo| t.id@);
            let ms = prefix_matches(ids, id@);
            &&& ms.len() == 1 ==> (r matches Ok(t) && t@ == ms[0])
            &&& ms.len() == 0 ==> (r matches Err(e) && e.status == Some(404u16))
            &&& ms.len() > 1 ==> (r matches Err(e) && e.status is None)
        }),
{
    if str_eq(id, "current") {
        let mut k: usize = 0;
        while k < tokens.len() && !tokens[k].current
            invariant
                k <= tokens.len(),
                forall|j: int| 0 <= j < k ==> !(#[trigger] tokens[j]).current,
            decreases tokens.len() - k,
        {
            k = k + 1;
        }
        proof {
            lemma_first_current(tokens@, k as int);
        }
        if k == tokens.len() {
            return Err(CliError::plain("no current token"));
        }
        if !force {
            return Err(
                CliError::plain(
                    "revoking the current token requires --force (subsequent requests will 401; clean up config.toml)",
                ),
            );
        }
        return Ok(tokens[k].id.clone());
    }
    let mut ids: Vec<String> = Vec::new();
    let mut i: usize = 0;
    while i < tokens.len()
        invariant
            i <= tokens.len(),
            ids@.len() == i,
            forall|j: int| 0 <= j < i ==> (#[trigger] ids@[j])@ == tokens@[j].id@,
        decreases tokens.len() - i,
    {
        ids.push(tokens[i].id.clone());
        i = i + 1;
    }
    assert(crate::messaging::views(ids@) =~= tokens@.map_values(|t: TokenInfo| t.id@));
    let m = matching_ids(&ids, id);
    if m.len() == 1 {
        return Ok(m[0].clone());
    }
    let mut msg = String::new();
    if m.len() == 0 {
        push_str(&mut msg, "token '");
        push_str(&mut msg, id);
        push_str(&mut msg, "' not found");
        return Err(CliError { status: Some(404), code: None, message: msg });
    }
    push_str(&mut msg, "'");
    push_str(&mut msg, id);
    push_str(&mut msg, "' is ambiguous");
    Err(CliError::plain(msg.as_str()))
}

// ---------- aliases ----------

/// Local conversation aliases (`aliases.toml`): three-character names of
/// conversation ids, kept in increasing order of name. No alias occurs
/// twice.
#[derive(Debug, Clone)]
pub struct Aliases {
    pub conversations: Vec<(String, String)>,
}

pub open spec fn alias_keys_unique(e: Seq<(String, String)>) -> bool {
    forall|i: int, j: int| 0 <= i < j < e.len() ==> (#[trigger] e[i]).0@ != (#[trigger] e[j]).0@
}

/// The order of aliases (`str`'s order: lexicographic on bytes).
pub open spec fn key_lt(x: Seq<char>, y: Seq<char>) -> bool {
    lex_lt(encode_utf8(x), encode_utf8(y))
}

/// Aliases are kept in increasing order of their names, as a sorted map
/// keeps them.
pub open spec fn alias_keys_sorted(e: Seq<(String, String)>) -> bool {
    forall|i: int, j: int|
        0 <= i < j < e.len() ==> key_lt((#[trigger] e[i]).0@, (#[trigger] e[j]).0@)
}

proof fn lemma_key_order(x: Seq<char>, y: Seq<char>)
    ensures
        key_lt(x, y) ==> !key_lt(y, x),
        x != y ==> key_lt(x, y) || key_lt(y, x),
{
    lemma_lex_lt_asymmetric(encode_utf8(x), encode_utf8(y));
    lemma_lex_lt_total(encode_utf8(x), encode_utf8(y));
    vstd::utf8::encode_utf8_decode_utf8(x);
    vstd::utf8::encode_utf8_decode_utf8(y);
}

proof fn lemma_sorted_unique(e: Seq<(String, String)>)
    requires
        alias_keys_sorted(e),
    ensures
        alias_keys_unique(e),
{
    assert forall|i: int, j: int| 0 <= i < j < e.len() implies (#[trigger] e[i]).0@ != (
    #[trigger] e[j]).0@ by {
        lemma_key_order(e[i].0@, e[j].0@);
    }
}

proof fn lemma_insert_sorted(e0: Seq<(String, String)>, p: int, entry: (String, String))
    requires
        alias_keys_sorted(e0),
        0 <= p <= e0.len(),
        forall|j: int| 0 <= j < p ==> key_lt((#[trigger] e0[j]).0@, entry.0@),
        p < e0.len() ==> key_lt(entry.0@, e0[p].0@),
    ensures
        alias_keys_sorted(e0.insert(p, entry)),
{
    let e1 = e0.insert(p, entry);
    assert forall|a: int, b: int| 0 <= a < b < e1.len() implies key_lt(
        (#[trigger] e1[a]).0@,
        (#[trigger] e1[b]).0@,
    ) by {
        if b < p {
            assert(e1[a] == e0[a] && e1[b] == e0[b]);
        } else if b == p {
            assert(e1[a] == e0[a]);
        } else if a == p {
            assert(e1[b] == e0[b - 1]);
            if b - 1 > p {
                assert(key_lt(e0[p].0@, e0[b - 1].0@));
                lemma_lex_lt_transitive(
                    encode_utf8(entry.0@),
                    encode_utf8(e0[p].0@),
                    encode_utf8(e0[b - 1].0@),
                );
            }
        } else if a < p {
            assert(e1[a] == e0[a] && e1[b] == e0[b - 1]);
        } else {
            assert(e1[a] == e0[a - 1] && e1[b] == e0[b - 1]);
        }
    }
}

pub open spec fn alias_view(e: Seq<(String, String)>) -> Map<Seq<char>, Seq<char>> {
    Map::new(
        |k: Seq<char>| exists|i: int| 0 <= i < e.len() && (#[trigger] e[i]).0@ == k,
        |k: Seq<char>| e[choose|i: int| 0 <= i < e.len() && (#[trigger] e[i]).0@ == k].1@,
    )
}

proof fn lemma_alias_view_at(e: Seq<(String, String)>, i: int)
    requires
        alias_keys_unique(e),
        0 <= i < e.len(),
    ensures
        alias_view(e).contains_key(e[i].0@),
        alias_view(e)[e[i].0@] == e[i].1@,
{
    let k = e[i].0@;
    assert(exists|j: int| 0 <= j < e.len() && (#[trigger] e[j]).0@ == k);
    let j = choose|j: int| 0 <= j < e.len() && (#[trigger] e[j]).0@ == k;
    if j != i {
        if j < i {
            assert(e[j].0@ != e[i].0@);
        } else {
            assert(e[i].0@ != e[j].0@);
        }
    }
}

/// An alias as accepted: exactly 3 bytes, all ASCII letters or digits.
pub open spec fn alias_ok(a: Seq<char>) -> bool {
    encode_utf8(a).len() == 3 && forall|i: int| 0 <= i < a.len() ==> is_alnum(#[trigger] a[i])
}

impl Aliases {
    pub open spec fn wf(&self) -> bool {
        alias_keys_unique(self.conversations@) && alias_keys_sorted(self.conversations@)
    }

    /// The aliases as a map from alias to conversation id.
    pub open spec fn view_map(&self) -> Map<Seq<char>, Seq<char>> {
        alias_view(self.conversations@)
    }

    pub fn new() -> (a: Self)
        ensures
            a.wf(),
            a.view_map() == Map::<Seq<char>, Seq<char>>::empty(),
    {
        let a = Aliases { conversations: Vec::new() };
        assert(a.view_map() =~= Map::<Seq<char>, Seq<char>>::empty());
        a
    }

    fn index_of(&self, key: &str) -> (r: Option<usize>)
        requires
            self.wf(),
        ensures
            match r {
                Some(i) => i < self.conversations@.len() && self.conversations@[i as int].0@
                    == key@,
                None => !self.view_map().contains_key(key@),
            },
    {
        let kv = chars_of(key);
        let mut i: usize = 0;
        while i < self.conversations.len()
            invariant
                i <= self.conversations@.len(),
                kv@ == key@,
                forall|j: int| 0 <= j < i ==> (#[trigger] self.conversations@[j]).0@ != key@,
            decreases self.conversations.len() - i,
        {
            let cv = chars_of(self.conversations[i].0.as_str());
            if chars_eq(&cv, &kv) {
                return Some(i);
            }
            i = i + 1;
        }
        None
    }

    /// The conversation id of an alias.
    pub fn lookup(&self, key: &str) -> (r: Option<String>)
        requires
            self.wf(),
        ensures
            opt_string_view(r) == if self.view_map().contains_key(key@) {
                Some(self.view_map()[key@])
            } else {
                None::<Seq<char>>
            },
    {
        match self.index_of(key) {
            Some(i) => {
                proof {
                    lemma_alias_view_at(self.conversations@, i as int);
                }
                Some(self.conversations[i].1.clone())
            },
            None => None,
        }
    }

    /// Sets (or overwrites) an alias.
    pub fn insert(&mut self, key: String, value: String)
        requires
            old(self).wf(),
        ensures
            final(self).wf(),
            final(self).view_map() == old(self).view_map().insert(key@, value@),
    {
        let ghost e0 = self.conversations@;
        let ghost k = key@;
        let ghost v = value@;
        match self.index_of(key.as_str()) {
            Some(i) => {
                self.conversations.set(i, (key, value));
                let ghost e1 = self.conversations@;
                assert(alias_keys_unique(e1)) by {
                    assert forall|a: int, b: int| 0 <= a < b < e1.len() implies (
                    #[trigger] e1[a]).0@ != (#[trigger] e1[b]).0@ by {
                        assert(e1[a].0@ == e0[a].0@);
                        assert(e1[b].0@ == e0[b].0@);
                    }
                }
                assert(alias_keys_sorted(e1)) by {
                    assert forall|a: int, b: int| 0 <= a < b < e1.len() implies key_lt(
                        (#[trigger] e1[a]).0@,
                        (#[trigger] e1[b]).0@,
                    ) by {
                        assert(e1[a].0@ == e0[a].0@);
                        assert(e1[b].0@ == e0[b].0@);
                    }
                }
                assert(alias_view(e1) =~= alias_view(e0).insert(k, v)) by {
                    assert forall|k2: Seq<char>| #![auto]
                        alias_view(e1).contains_key(k2) <==> alias_view(e0).insert(
                            k,
                            v,
                        ).contains_key(k2) by {
                        if alias_view(e0).insert(k, v).contains_key(k2) && k2 != k {
                            let j = choose|j: int| 0 <= j < e0.len() && (#[trigger] e0[j]).0@ == k2;
                            assert(e1[j].0@ == k2);
                        }
                        if alias_view(e1).contains_key(k2) {
                            let j = choose|j: int| 0 <= j < e1.len() && (#[trigger] e1[j]).0@ == k2;
                            assert(e0[j].0@ == k2);
                        }
                        assert(e1[i as int].0@ == k);
                    }
                    assert forall|k2: Seq<char>|
                        #![auto]
                        alias_view(e1).contains_key(k2) implies alias_view(e1)[k2] == alias_view(
                            e0,
                        ).insert(k, v)[k2] by {
                        let j = choose|j: int| 0 <= j < e1.len() && (#[trigger] e1[j]).0@ == k2;
                        lemma_alias_view_at(e1, j);
                        if j == i {
                        } else {
                            assert(e0[j] == e1[j]);
                            lemma_alias_view_at(e0, j);
                        }
                    }
                }
            },
            None => {
                let mut p: usize = 0;
                while p < self.conversations.len() && !str_lt(
                    key.as_str(),
                    self.conversations[p].0.as_str(),
                )
                    invariant
                        p <= self.conversations@.len(),
                        self.conversations@ == e0,
                        key@ == k,
                        forall|j: int| 0 <= j < p ==> !key_lt(k, (#[trigger] e0[j]).0@),
                    decreases self.conversations.len() - p,
                {
                    p = p + 1;
                }
                proof {
                    assert forall|j: int| 0 <= j < p implies key_lt((#[trigger] e0[j]).0@, k) by {
                        assert(!alias_view(e0).contains_key(k));
                        assert(e0[j].0@ != k);
                        lemma_key_order(e0[j].0@, k);
                    }
                    lemma_insert_sorted(e0, p as int, (key, value));
                }
                self.conversations.insert(p, (key, value));
                let ghost e1 = self.conversations@;
                proof {
                    lemma_sorted_unique(e1);
                }
                assert(e1[p as int].0@ == k);
                assert(alias_view(e1) =~= alias_view(e0).insert(k, v)) by {
                    assert forall|k2: Seq<char>| #![auto]
                        alias_view(e1).contains_key(k2) <==> alias_view(e0).insert(
                            k,
                            v,
                        ).contains_key(k2) by {
                        if alias_view(e0).insert(k, v).contains_key(k2) && k2 != k {
                            let j = choose|j: int| 0 <= j < e0.len() && (#[trigger] e0[j]).0@ == k2;
                            let j1 = if j < p {
                                j
                            } else {
                                j + 1
                            };
                            assert(e1[j1].0@ == k2);
                        }
                        if alias_view(e1).contains_key(k2) && k2 != k {
                            let j = choose|j: int| 0 <= j < e1.len() && (#[trigger] e1[j]).0@ == k2;
                            let j0 = if j < p {
                                j
                            } else {
                                j - 1
                            };
                            assert(e0[j0].0@ == k2);
                        }
                    }
                    assert forall|k2: Seq<char>|
                        #![auto]
                        alias_view(e1).contains_key(k2) implies alias_view(e1)[k2] == alias_view(
                            e0,
                        ).insert(k, v)[k2] by {
                        let j = choose|j: int| 0 <= j < e1.len() && (#[trigger] e1[j]).0@ == k2;
                        lemma_alias_view_at(e1, j);
                        if j != p {
                            let j0 = if j < p {
                                j
                            } else {
                                j - 1
                            };
                            assert(e0[j0] == e1[j]);
                            lemma_alias_view_at(e0, j0);
                        }
                    }
                }
            },
        }
    }

    /// Removes an alias; whether it was there.
    pub fn remove_key(&mut self, key: &str) -> (found: bool)
        requires
            old(self).wf(),
        ensures
            final(self).wf(),
            found == old(self).view_map().contains_key(key@),
            final(self).view_map() == old(self).view_map().remove(key@),
    {
        let ghost e0 = self.conversations@;
        let ghost k = key@;
        match self.index_of(key) {
            None => {
                assert(alias_view(e0).remove(k) =~= alias_view(e0));
                false
            },
            Some(i) => {
                proof {
                    lemma_alias_view_at(e0, i as int);
                }
                let _removed = self.conversations.remove(i);
                let ghost e1 = self.conversations@;
                assert(e1 =~= e0.remove(i as int));
                assert(alias_keys_unique(e1)) by {
                    assert forall|a: int, b: int| 0 <= a < b < e1.len() implies (
                    #[trigger] e1[a]).0@ != (#[trigger] e1[b]).0@ by {
                        let a0 = if a < i {
                            a
                        } else {
                            a + 1
                        };
                        let b0 = if b < i {
                            b
                        } else {
                            b + 1
                        };
                        assert(e1[a] == e0[a0]);
                        assert(e1[b] == e0[b0]);
                    }
                }
                assert(alias_keys_sorted(e1)) by {
                    assert forall|a: int, b: int| 0 <= a < b < e1.len() implies key_lt(
                        (#[trigger] e1[a]).0@,
                        (#[trigger] e1[b]).0@,
                    ) by {
                        let a0 = if a < i {
                            a
                        } else {
                            a + 1
                        };
                        let b0 = if b < i {
                            b
                        } else {
                            b + 1
                        };
                        assert(e1[a] == e0[a0]);
                        assert(e1[b] == e0[b0]);
                    }
                }
                assert(alias_view(e1) =~= alias_view(e0).remove(k)) by {
                    assert forall|k2: Seq<char>| #![auto]
                        alias_view(e1).contains_key(k2) <==> alias_view(e0).remove(
                            k,
                        ).contains_key(k2) by {
                        if alias_view(e0).remove(k).contains_key(k2) {
                            let j = choose|j: int| 0 <= j < e0.len() && (#[trigger] e0[j]).0@ == k2;
                            assert(j != i);
                            let j1 = if j < i {
                                j
                            } else {
                                j - 1
                            };
                            assert(e1[j1] == e0[j]);
                        }
                        if alias_view(e1).contains_key(k2) {
                            let j = choose|j: int| 0 <= j < e1.len() && (#[trigger] e1[j]).0@ == k2;
                            let j0 = if j < i {
                                j
                            } else {
                                j + 1
                            };
                            assert(e1[j] == e0[j0]);
                            assert(j0 != i);
                            assert(e0[j0].0@ != e0[i as int].0@) by {
                                if j0 < i {
                                } else {
                                }
                            }
                        }
                    }
                    assert forall|k2: Seq<char>|
                        #![auto]
                        alias_view(e1).contains_key(k2) implies alias_view(e1)[k2] == alias_view(
                            e0,
                        ).remove(k)[k2] by {
                        let j = choose|j: int| 0 <= j < e1.len() && (#[trigger] e1[j]).0@ == k2;
                        lemma_alias_view_at(e1, j);
                        let j0 = if j < i {
                            j
                        } else {
                            j + 1
                        };
                        assert(e1[j] == e0[j0]);
                        lemma_alias_view_at(e0, j0);
                    }
                }
                true
            },
        }
    }

    /// `alias set`: the alias, lowercased, must be exactly 3 ASCII letters
    /// or digits; it then names the conversation (overwriting).
    pub fn set_alias(&mut self, alias: &str, conv: &str) -> (r: Result<String, CliError>)
        requires
            old(self).wf(),
        ensures
            final(self).wf(),
            alias_ok(lowercase(alias@)) ==> (r matches Ok(a) && a@ == lowercase(alias@)
                && final(self).view_map() == old(self).view_map().insert(
                lowercase(alias@),
                conv@,
            )),
            !alias_ok(lowercase(alias@)) ==> (r matches Err(e) && e.status == Some(422u16)
                && final(self).view_map() == old(self).view_map()),
    {
        let a = to_lowercase(alias);
        let av = chars_of(a.as_str());
        let n = a.as_str().as_bytes().len();
        let mut ok = n == 3;
        let mut i: usize = 0;
        assert(av@ == a@);
        assert(n == encode_utf8(a@).len());
        while i < av.len()
            invariant
                i <= av.len(),
                ok ==> n == 3,
                ok ==> forall|j: int| 0 <= j < i ==> is_alnum(#[trigger] av@[j]),
                !ok ==> (n != 3 || exists|j: int| 0 <= j < av.len() && !is_alnum(#[trigger] av@[j])),
            decreases av.len() - i,
        {
            if !char_is_alnum(av[i]) {
                ok = false;
            }
            i = i + 1;
        }
        if !ok {
            return Err(CliError::local("alias must be exactly 3 chars of [a-z0-9]"));
        }
        let key = a.clone();
        self.insert(key, to_owned_string(conv));
        Ok(a)
    }

    /// `alias remove`: removes the lowercased alias, or fails when absent.
    pub fn remove_alias(&mut self, alias: &str) -> (r: Result<String, CliError>)
        requires
            old(self).wf(),
        ensures
            final(self).wf(),
            final(self).view_map() == old(self).view_map().remove(lowercase(alias@)),
            r is Ok <==> old(self).view_map().contains_key(lowercase(alias@)),
            r matches Ok(a) ==> a@ == lowercase(alias@),
            r matches Err(e) ==> e.status == Some(422u16),
    {
        let a = to_lowercase(alias);
        if self.remove_key(a.as_str()) {
            Ok(a)
        } else {
            let mut msg = String::new();
            push_str(&mut msg, "alias '");
            push_str(&mut msg, alias);
            push_str(&mut msg, "' not found");
            Err(CliError::local(msg.as_str()))
        }
    }

    /// The alias step of conversation resolution: the id named by the
    /// lowercased reference.
    pub fn resolve(&self, reference: &str) -> (r: Option<String>)
        requires
            self.wf(),
        ensures
            opt_string_view(r) == if self.view_map().contains_key(lowercase(reference@)) {
                Some(self.view_map()[lowercase(reference@)])
            } else {
                None::<Seq<char>>
            },
    {
        let k = to_lowercase(reference);
        self.lookup(k.as_str())
    }
}

/// The local steps of resolving a conversation reference, in their order:
/// an alias (the reference lowercased) first, then a complete id as it
/// stands; `None` leaves the reference to the unique-prefix step.
pub fn resolve_local(aliases: &Aliases, reference: &str) -> (r: Option<String>)
    requires
        aliases.wf(),
    ensures
        aliases.view_map().contains_key(lowercase(reference@)) ==> (r matches Some(id) && id@
            == aliases.view_map()[lowercase(reference@)]),
        !aliases.view_map().contains_key(lowercase(reference@)) && is_full_id(reference) ==> (
        r matches Some(id) && id@ == reference@),
        !aliases.view_map().contains_key(lowercase(reference@)) && !is_full_id(reference) ==> r is None,
{
    match aliases.resolve(reference) {
        Some(id) => Some(id),
        None => {
            if full_id(reference) {
                Some(to_owned_string(reference))
            } else {
                None
            }
        },
    }
}

/// Read after write: once `alias set` accepts an alias for a conversation,
/// resolving that alias yields that conversation, and other aliases keep
/// what they named; after `alias remove`, the alias resolves to nothing.
pub proof fn law_alias_read_after_write(
    before: Map<Seq<char>, Seq<char>>,
    alias: Seq<char>,
    conv: Seq<char>,
    other: Seq<char>,
)
    ensures
        before.insert(lowercase(alias), conv).contains_key(lowercase(alias)),
        before.insert(lowercase(alias), conv)[lowercase(alias)] == conv,
        lowercase(other) != lowercase(alias) ==> (before.insert(lowercase(alias), conv).contains_key(
            lowercase(other),
        ) == before.contains_key(lowercase(other)) && (before.contains_key(lowercase(other))
            ==> before.insert(lowercase(alias), conv)[lowercase(other)] == before[lowercase(
            other,
        )])),
        !before.remove(lowercase(alias)).contains_key(lowercase(alias)),
{
}

// ---------- listen and chat ----------

/// The wait of each long poll of `listen` and `chat`: the interval, within
/// 1..=25 seconds.
pub fn poll_wait(interval_secs: u64) -> (w: u64)
    ensures
        w == if interval_secs > 25 {
            25
        } else if interval_secs < 1 {
            1
        } else {
            interval_secs
        },
        1 <= w <= 25,
{
    let w = if interval_secs < 25 {
        interval_secs
    } else {
        25
    };
    if w < 1 {
        1
    } else {
        w
    }
}

/// With `--once`, a poll never waits past the remaining time (at least 1 s).
pub fn once_wait(wait: u64, remaining_secs: u64) -> (w: u64)
    ensures
        w == if remaining_secs < 1 {
            if wait < 1 {
                wait
            } else {
                1
            }
        } else if wait < remaining_secs {
            wait
        } else {
            remaining_secs
        },
{
    let r = if remaining_secs < 1 {
        1
    } else {
        remaining_secs
    };
    if wait < r {
        wait
    } else {
        r
    }
}

/// The path of one poll: the latest page while no cursor is known, else
/// a long poll for what follows the cursor.
pub open spec fn poll_path_spec(conv: Seq<char>, cursor: Seq<char>, wait: u64) -> Seq<char> {
    if cursor.len() == 0 {
        "/conversations/"@ + conv + "/messages?limit=50"@
    } else {
        "/conversations/"@ + conv + "/messages?after="@ + cursor + "&wait="@ + decimal(wait as nat)
            + "&limit=50"@
    }
}

pub fn poll_path(conv: &str, cursor: &str, wait: u64) -> (p: String)
    ensures
        p@ == poll_path_spec(conv@, cursor@, wait),
{
    let mut p = String::new();
    push_str(&mut p, "/conversations/");
    push_str(&mut p, conv);
    let cv = chars_of(cursor);
    if cv.len() == 0 {
        push_str(&mut p, "/messages?limit=50");
    } else {
        push_str(&mut p, "/messages?after=");
        push_str(&mut p, cursor);
        push_str(&mut p, "&wait=");
        let w = u64_to_decimal(wait);
        push_str(&mut p, w.as_str());
        push_str(&mut p, "&limit=50");
    }
    assert(p@ =~= poll_path_spec(conv@, cursor@, wait));
    p
}

/// The path of a history request.
pub fn history_path(conv: &str, limit: u32, before: Option<&str>, after: Option<&str>) -> (p: String)
    ensures
        p@ == "/conversations/"@ + conv@ + "/messages?limit="@ + decimal(limit as nat) + (match before {
            Some(b) => "&before="@ + b@,
            None => Seq::<char>::empty(),
        }) + (match after {
            Some(a) => "&after="@ + a@,
            None => Seq::<char>::empty(),
        }),
{
    let mut p = String::new();
    push_str(&mut p, "/conversations/");
    push_str(&mut p, conv);
    push_str(&mut p, "/messages?limit=");
    let l = u64_to_decimal(limit as u64);
    push_str(&mut p, l.as_str());
    let ghost mid = p@;
    match before {
        Some(b) => {
            push_str(&mut p, "&before=");
            push_str(&mut p, b);
        },
        None => {},
    }
    let ghost mid2 = p@;
    match after {
        Some(a) => {
            push_str(&mut p, "&after=");
            push_str(&mut p, a);
        },
        None => {},
    }
    assert(p@ =~= "/conversations/"@ + conv@ + "/messages?limit="@ + decimal(limit as nat) + (
    match before {
        Some(b) => "&before="@ + b@,
        None => Seq::<char>::empty(),
    }) + (match after {
        Some(a) => "&after="@ + a@,
        None => Seq::<char>::empty(),
    }));
    p
}

/// A line typed in `chat`.
#[derive(Debug)]
pub enum ChatInput {
    Empty,
    Quit,
    Members,
    /// `/upload <path>`: the path, trimmed.
    Upload(String),
    Text(String),
}

/// `/upload ` and everything after its repetitions (`trim_start_matches`).
pub open spec fn strip_upload(s: Seq<char>) -> Seq<char>
    decreases s.len(),
{
    if s.len() >= 8 && s.take(8) == "/upload "@ {
        strip_upload(s.skip(8))
    } else {
        s
    }
}

/// Classifies a line typed in `chat`.
pub fn parse_chat_line(line: &str) -> (c: ChatInput)
    ensures
        line@.len() == 0 ==> c is Empty,
        line@.len() > 0 && line@ == "/quit"@ ==> c is Quit,
        line@.len() > 0 && line@ != "/quit"@ && line@ == "/members"@ ==> c is Members,
        line@.len() > 0 && line@ != "/quit"@ && line@ != "/members"@ && has_prefix(
            line@,
            "/upload "@,
        ) ==> (c matches ChatInput::Upload(p) && p@ == trim(strip_upload(line@))),
        line@.len() > 0 && line@ != "/quit"@ && line@ != "/members"@ && !has_prefix(
            line@,
            "/upload "@,
        ) ==> (c matches ChatInput::Text(t) && t@ == line@),
{
    let v = chars_of(line);
    if v.len() == 0 {
        return ChatInput::Empty;
    }
    if str_eq(line, "/quit") {
        return ChatInput::Quit;
    }
    if str_eq(line, "/members") {
        return ChatInput::Members;
    }
    let up = chars_of("/upload ");
    assert(up@ == "/upload "@);
    if chars_starts_with(&v, &up) {
        proof {
            reveal_strlit("/upload ");
        }
        let mut start: usize = 0;
        assert(v@.skip(0) =~= v@);
        while v.len() >= 8 && start <= v.len() - 8 && chars_match_at(&v, start, &up)
            invariant
                start <= v.len(),
                up@ == "/upload "@,
                up@.len() == 8,
                strip_upload(v@) == strip_upload(v@.skip(start as int)),
            decreases v.len() - start,
        {
            assert(v@.skip(start as int).take(8) =~= v@.subrange(start as int, (start + 8) as int));
            assert(v@.skip(start as int).skip(8) =~= v@.skip((start + 8) as int));
            start = start + 8;
        }
        let ghost rest = v@.skip(start as int);
        proof {
            if rest.len() >= 8 {
                assert(rest.take(8) =~= v@.subrange(start as int, (start + 8) as int));
            }
        }
        let mut r: Vec<char> = Vec::new();
        let mut i: usize = start;
        while i < v.len()
            invariant
                start <= i <= v.len(),
                r@ == v@.subrange(start as int, i as int),
            decreases v.len() - i,
        {
            r.push(v[i]);
            i = i + 1;
            assert(r@ =~= v@.subrange(start as int, i as int));
        }
        assert(r@ =~= rest);
        let t = trim_chars(&r);
        return ChatInput::Upload(string_of(&t));
    }
    ChatInput::Text(to_owned_string(line))
}

} // verus!
