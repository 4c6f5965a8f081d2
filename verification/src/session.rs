//! Request authentication: the two credential channels (Bearer token and
//! `folkmoot_session` cookie), the CSRF rule of the cookie channel, header
//! parsing, session cookies and the sliding session policy.

use vstd::prelude::*;

use crate::crypto::is_b64_url_char;
use crate::errors::{ApiError, ErrorCode};
use crate::protocol::{AccountSummary, AgentInfo};
use crate::text::{
    chars_of, chars_starts_with, has_prefix, is_white_space, leading_ws, push_chars, push_char,
    push_str, string_of, str_eq, trailing_ws, trim, trim_chars, u64_to_decimal, decimal,
};

verus! {

/// Name of the session cookie.
pub const SESSION_COOKIE: &'static str = "folkmoot_session";

/// Lifetime of a session, in days, renewed while in use.
pub const SESSION_TTL_DAYS: i64 = 7;

/// `Max-Age` of the session cookie: `SESSION_TTL_DAYS` in seconds.
pub const SESSION_MAX_AGE_SECS: u64 = 604800;

/// At most this many live sessions per account; the oldest are evicted.
pub const MAX_SESSIONS_PER_ACCOUNT: u32 = 20;

/// Milliseconds in `SESSION_TTL_DAYS`.
pub const SESSION_TTL_MS: i64 = 604800000;

/// A session is renewed once fewer than 3.5 days (84 hours) remain.
pub const SESSION_RENEW_BELOW_MS: i64 = 302400000;

/// `last_used_at` / `last_seen_at` are written at most once per minute.
pub const TOUCH_THROTTLE_MS: i64 = 60000;

// ---------- splitting ----------

/// `str::split` on one character: the pieces between separators, empty
/// pieces included (`n` separators give `n + 1` pieces).
pub open spec fn split_char(s: Seq<char>, sep: char) -> Seq<Seq<char>>
    decreases s.len(),
{
    if s.len() == 0 {
        seq![Seq::<char>::empty()]
    } else {
        let rest = split_char(s.drop_last(), sep);
        if s.last() == sep {
            rest.push(Seq::<char>::empty())
        } else {
            rest.update(rest.len() - 1, rest.last().push(s.last()))
        }
    }
}

pub proof fn lemma_split_char_nonempty(s: Seq<char>, sep: char)
    ensures
        split_char(s, sep).len() >= 1,
    decreases s.len(),
{
    if s.len() > 0 {
        lemma_split_char_nonempty(s.drop_last(), sep);
    }
}

/// Splits characters on a separator.
pub fn split_chars(s: &Vec<char>, sep: char) -> (parts: Vec<Vec<char>>)
    ensures
        parts.len() == split_char(s@, sep).len(),
        forall|i: int| 0 <= i < parts.len() ==> (#[trigger] parts[i])@ == split_char(s@, sep)[i],
{
    let mut parts: Vec<Vec<char>> = Vec::new();
    let mut cur: Vec<char> = Vec::new();
    let mut i: usize = 0;
    assert(s@.take(0) =~= Seq::<char>::empty());
    while i < s.len()
        invariant
            i <= s.len(),
            parts.len() + 1 == split_char(s@.take(i as int), sep).len(),
            forall|k: int|
                0 <= k < parts.len() ==> (#[trigger] parts[k])@ == split_char(
                    s@.take(i as int),
                    sep,
                )[k],
            cur@ == split_char(s@.take(i as int), sep).last(),
        decreases s.len() - i,
    {
        proof {
            lemma_split_char_nonempty(s@.take(i as int), sep);
        }
        assert(s@.take((i + 1) as int).drop_last() =~= s@.take(i as int));
        if s[i] == sep {
            let done = cur;
            parts.push(done);
            cur = Vec::new();
        } else {
            cur.push(s[i]);
        }
        i = i + 1;
    }
    assert(s@.take(i as int) =~= s@);
    proof {
        lemma_split_char_nonempty(s@, sep);
    }
    parts.push(cur);
    parts
}

// ---------- header parsing ----------

pub open spec fn bearer_prefix() -> Seq<char> {
    seq!['B', 'e', 'a', 'r', 'e', 'r', ' ']
}

/// The token of an `Authorization: Bearer <token>` header, trimmed.
pub open spec fn bearer_of(header: Option<Seq<char>>) -> Option<Seq<char>> {
    match header {
        Some(h) => if has_prefix(h, bearer_prefix()) {
            Some(trim(h.skip(7)))
        } else {
            None
        },
        None => None,
    }
}

pub open spec fn opt_view(o: Option<&str>) -> Option<Seq<char>> {
    match o {
        Some(s) => Some(s@),
        None => None,
    }
}

pub open spec fn opt_string_view(o: Option<String>) -> Option<Seq<char>> {
    match o {
        Some(s) => Some(s@),
        None => None,
    }
}

/// Reads a Bearer token from the value of the `Authorization` header.
pub fn parse_bearer(authorization: Option<&str>) -> (r: Option<String>)
    ensures
        opt_string_view(r) == bearer_of(opt_view(authorization)),
{
    match authorization {
        None => None,
        Some(h) => {
            let hv = chars_of(h);
            let mut p: Vec<char> = Vec::new();
            p.push('B');
            p.push('e');
            p.push('a');
            p.push('r');
            p.push('e');
            p.push('r');
            p.push(' ');
            assert(p@ =~= bearer_prefix());
            if !chars_starts_with(&hv, &p) {
                return None;
            }
            let mut rest: Vec<char> = Vec::new();
            let mut i: usize = 7;
            while i < hv.len()
                invariant
                    7 <= i <= hv.len(),
                    rest@ == hv@.subrange(7, i as int),
                decreases hv.len() - i,
            {
                rest.push(hv[i]);
                i = i + 1;
                assert(rest@ =~= hv@.subrange(7, i as int));
            }
            assert(rest@ =~= hv@.skip(7));
            let t = trim_chars(&rest);
            Some(string_of(&t))
        },
    }
}

/// The cookie name followed by `=`.
pub open spec fn cookie_name_eq() -> Seq<char> {
    "folkmoot_session="@
}

/// The value of the first `folkmoot_session=` pair among the pieces.
pub open spec fn first_session_pair(parts: Seq<Seq<char>>) -> Option<Seq<char>>
    decreases parts.len(),
{
    if parts.len() == 0 {
        None
    } else if has_prefix(trim(parts[0]), cookie_name_eq()) {
        Some(trim(parts[0]).skip(cookie_name_eq().len() as int))
    } else {
        first_session_pair(parts.drop_first())
    }
}

/// The session secret carried by a `Cookie` header value: the first
/// `;`-separated pair, trimmed, that starts with `folkmoot_session=`.
pub open spec fn session_cookie_of(header: Option<Seq<char>>) -> Option<Seq<char>> {
    match header {
        Some(h) => first_session_pair(split_char(h, ';')),
        None => None,
    }
}

/// Reads the session secret from the value of the `Cookie` header.
pub fn parse_session_cookie(cookie: Option<&str>) -> (r: Option<String>)
    ensures
        opt_string_view(r) == session_cookie_of(opt_view(cookie)),
{
    match cookie {
        None => None,
        Some(h) => {
            let hv = chars_of(h);
            let parts = split_chars(&hv, ';');
            let ghost ps = split_char(hv@, ';');
            let prefix = chars_of("folkmoot_session=");
            let mut k: usize = 0;
            assert(ps.skip(0) =~= ps);
            while k < parts.len()
                invariant
                    k <= parts.len(),
                    parts.len() == ps.len(),
                    forall|i: int| 0 <= i < parts.len() ==> (#[trigger] parts[i])@ == ps[i],
                    prefix@ == cookie_name_eq(),
                    ps == split_char(hv@, ';'),
                    session_cookie_of(opt_view(cookie)) == first_session_pair(ps),
                    first_session_pair(ps) == first_session_pair(ps.skip(k as int)),
                decreases parts.len() - k,
            {
                let t = trim_chars(&parts[k]);
                assert(ps.skip(k as int)[0] == ps[k as int]);
                if chars_starts_with(&t, &prefix) {
                    let mut v: Vec<char> = Vec::new();
                    let mut i: usize = prefix.len();
                    while i < t.len()
                        invariant
                            prefix.len() <= i <= t.len(),
                            v@ == t@.subrange(prefix.len() as int, i as int),
                        decreases t.len() - i,
                    {
                        v.push(t[i]);
                        i = i + 1;
                        assert(v@ =~= t@.subrange(prefix.len() as int, i as int));
                    }
                    assert(v@ =~= t@.skip(prefix.len() as int));
                    assert(trim(ps.skip(k as int)[0]) == t@);
                    assert(first_session_pair(ps.skip(k as int)) == Some(t@.skip(prefix.len() as int)));
                    let res = string_of(&v);
                    assert(first_session_pair(ps) == Some(res@));
                    assert(session_cookie_of(opt_view(cookie)) == first_session_pair(ps));
                    return Some(res);
                }
                assert(ps.skip(k as int).drop_first() =~= ps.skip(k + 1));
                k = k + 1;
            }
            assert(ps.skip(k as int) =~= Seq::<Seq<char>>::empty());
            None
        },
    }
}

/// The `User-Agent` kept for a token: its first 256 characters.
pub fn user_agent(header: Option<&str>) -> (r: Option<String>)
    ensures
        match header {
            Some(h) => r matches Some(u) && u@ == h@.take(
                if h@.len() < 256 {
                    h@.len() as int
                } else {
                    256
                },
            ),
            None => r is None,
        },
{
    match header {
        None => None,
        Some(h) => {
            let hv = chars_of(h);
            let n = if hv.len() < 256 {
                hv.len()
            } else {
                256
            };
            let mut v: Vec<char> = Vec::new();
            let mut i: usize = 0;
            while i < n
                invariant
                    n <= hv.len(),
                    i <= n,
                    v@ == hv@.take(i as int),
                decreases n - i,
            {
                v.push(hv[i]);
                i = i + 1;
                assert(v@ =~= hv@.take(i as int));
            }
            Some(string_of(&v))
        },
    }
}

// ---------- session cookies ----------

/// `Set-Cookie` value that installs a session secret.
pub open spec fn session_cookie_spec(secret: Seq<char>, max_age_secs: u64, secure: bool) -> Seq<char> {
    "folkmoot_session="@ + secret + "; HttpOnly; SameSite=Strict; Path=/; Max-Age="@ + decimal(
        max_age_secs as nat,
    ) + if secure {
        "; Secure"@
    } else {
        Seq::<char>::empty()
    }
}

pub fn build_session_cookie(secret: &str, max_age_secs: u64, secure: bool) -> (c: String)
    ensures
        c@ == session_cookie_spec(secret@, max_age_secs, secure),
{
    let mut c = String::new();
    push_str(&mut c, "folkmoot_session=");
    push_str(&mut c, secret);
    push_str(&mut c, "; HttpOnly; SameSite=Strict; Path=/; Max-Age=");
    let age = u64_to_decimal(max_age_secs);
    push_str(&mut c, age.as_str());
    if secure {
        push_str(&mut c, "; Secure");
    }
    assert(c@ =~= session_cookie_spec(secret@, max_age_secs, secure));
    c
}

/// `Set-Cookie` value that removes the session cookie (`Max-Age=0`).
pub fn clear_session_cookie() -> (c: String)
    ensures
        c@ == "folkmoot_session=; HttpOnly; SameSite=Strict; Path=/; Max-Age=0"@,
{
    let mut c = String::new();
    push_str(&mut c, "folkmoot_session=; HttpOnly; SameSite=Strict; Path=/; Max-Age=0");
    assert(c@ =~= "folkmoot_session=; HttpOnly; SameSite=Strict; Path=/; Max-Age=0"@);
    c
}

pub proof fn lemma_split_without_sep(s: Seq<char>, sep: char)
    requires
        forall|i: int| 0 <= i < s.len() ==> s[i] != sep,
    ensures
        split_char(s, sep) == seq![s],
    decreases s.len(),
{
    if s.len() > 0 {
        lemma_split_without_sep(s.drop_last(), sep);
        assert(s.drop_last().push(s.last()) =~= s);
        assert(seq![s.drop_last()].update(0, s.drop_last().push(s.last())) =~= seq![s]);
    } else {
        assert(s =~= Seq::<char>::empty());
    }
}

proof fn lemma_trim_unchanged(s: Seq<char>)
    requires
        s.len() > 0,
        !is_white_space(s[0]),
        !is_white_space(s.last()),
    ensures
        trim(s) == s,
{
    assert(leading_ws(s) == 0);
    assert(s.skip(0) =~= s);
    assert(trailing_ws(s) == 0);
    assert(s.take(s.len() as int) =~= s);
}

/// Splitting at a separator splits on both sides of it.
pub proof fn lemma_split_concat(a: Seq<char>, b: Seq<char>, sep: char)
    ensures
        split_char(a + seq![sep] + b, sep) == split_char(a, sep) + split_char(b, sep),
    decreases b.len(),
{
    let s = a + seq![sep] + b;
    if b.len() == 0 {
        assert(s.drop_last() =~= a);
        assert(split_char(b, sep) =~= seq![Seq::<char>::empty()]);
        assert(split_char(a, sep).push(Seq::<char>::empty()) =~= split_char(a, sep) + split_char(
            b,
            sep,
        ));
    } else {
        lemma_split_concat(a, b.drop_last(), sep);
        lemma_split_char_nonempty(b.drop_last(), sep);
        assert(s.drop_last() =~= a + seq![sep] + b.drop_last());
        assert(s.last() == b.last());
        let x = split_char(a, sep);
        let y = split_char(b.drop_last(), sep);
        if b.last() == sep {
            assert((x + y).push(Seq::<char>::empty()) =~= x + y.push(Seq::<char>::empty()));
        } else {
            let r = x + y;
            assert(r.last() == y.last());
            assert(r.update(r.len() - 1, r.last().push(b.last())) =~= x + y.update(
                y.len() - 1,
                y.last().push(b.last()),
            ));
        }
    }
}

proof fn lemma_leading_ws_bound(x: Seq<char>)
    ensures
        leading_ws(x) <= x.len(),
    decreases x.len(),
{
    if x.len() > 0 {
        lemma_leading_ws_bound(x.drop_first());
    }
}

/// A leading space does not change what `trim` gives.
proof fn lemma_trim_leading_space(x: Seq<char>)
    ensures
        trim(seq![' '] + x) == trim(x),
{
    let s = seq![' '] + x;
    assert(is_white_space(' '));
    assert(s.drop_first() =~= x);
    assert(leading_ws(s) == 1 + leading_ws(x));
    lemma_leading_ws_bound(x);
    assert(s.skip(leading_ws(s) as int) =~= x.skip(leading_ws(x) as int));
}

/// A `Cookie` header value: the given pairs in order, each followed by
/// `; `, and then the last pair.
pub open spec fn cookie_header(others: Seq<Seq<char>>, last: Seq<char>) -> Seq<char>
    decreases others.len(),
{
    if others.len() == 0 {
        last
    } else {
        others[0] + seq![';', ' '] + cookie_header(others.drop_first(), last)
    }
}

/// The secret carried by the session pair, optionally after a space.
proof fn lemma_session_pair_alone(secret: Seq<char>, lead: Seq<char>)
    requires
        lead == Seq::<char>::empty() || lead == seq![' '],
        forall|i: int| 0 <= i < secret.len() ==> #[trigger] secret[i] != ';' && !is_white_space(
            secret[i],
        ),
    ensures
        first_session_pair(split_char(lead + (cookie_name_eq() + secret), ';')) == Some(secret),
{
    reveal_strlit("folkmoot_session=");
    let pair = cookie_name_eq() + secret;
    let s = lead + pair;
    assert forall|i: int| 0 <= i < s.len() implies s[i] != ';' by {
        if i >= lead.len() + cookie_name_eq().len() {
            assert(s[i] == secret[i - lead.len() - cookie_name_eq().len()]);
        }
    }
    lemma_split_without_sep(s, ';');
    assert(pair[0] == 'f');
    if secret.len() > 0 {
        assert(pair.last() == secret.last());
        assert(!is_white_space(secret[secret.len() - 1]));
    } else {
        assert(pair.last() == '=');
    }
    lemma_trim_unchanged(pair);
    if lead.len() > 0 {
        assert(s =~= seq![' '] + pair);
        lemma_trim_leading_space(pair);
    } else {
        assert(s =~= pair);
    }
    assert(pair.take(cookie_name_eq().len() as int) =~= cookie_name_eq());
    assert(pair.skip(cookie_name_eq().len() as int) =~= secret);
    let ps = seq![s];
    assert(ps[0] == s);
}

/// A pair that is not the session's, followed by `;` and the rest, leaves
/// the search to the rest.
proof fn lemma_skip_other_pair(o: Seq<char>, lead: Seq<char>, b: Seq<char>)
    requires
        lead == Seq::<char>::empty() || lead == seq![' '],
        forall|j: int| 0 <= j < o.len() ==> #[trigger] o[j] != ';',
        !has_prefix(trim(o), cookie_name_eq()),
    ensures
        first_session_pair(split_char(lead + o + seq![';'] + b, ';')) == first_session_pair(
            split_char(b, ';'),
        ),
{
    let a = lead + o;
    lemma_split_concat(a, b, ';');
    assert forall|j: int| 0 <= j < a.len() implies a[j] != ';' by {
        if j >= lead.len() {
            assert(a[j] == o[j - lead.len()]);
        }
    }
    lemma_split_without_sep(a, ';');
    if lead.len() > 0 {
        assert(a =~= seq![' '] + o);
        lemma_trim_leading_space(o);
    } else {
        assert(a =~= o);
    }
    let ps = seq![a] + split_char(b, ';');
    assert(ps[0] == a);
    assert(ps.drop_first() =~= split_char(b, ';'));
}

proof fn lemma_session_pair_found(
    others: Seq<Seq<char>>,
    secret: Seq<char>,
    lead: Seq<char>,
)
    requires
        lead == Seq::<char>::empty() || lead == seq![' '],
        forall|i: int| 0 <= i < secret.len() ==> #[trigger] secret[i] != ';' && !is_white_space(
            secret[i],
        ),
        forall|i: int, j: int|
            0 <= i < others.len() && 0 <= j < others[i].len() ==> #[trigger] others[i][j] != ';',
        forall|i: int|
            0 <= i < others.len() ==> !has_prefix(trim(#[trigger] others[i]), cookie_name_eq()),
    ensures
        first_session_pair(split_char(lead + cookie_header(others, cookie_name_eq() + secret), ';'))
            == Some(secret),
    decreases others.len(),
{
    let pair = cookie_name_eq() + secret;
    if others.len() == 0 {
        lemma_session_pair_alone(secret, lead);
    } else {
        let o = others[0];
        let rest = others.drop_first();
        let b = seq![' '] + cookie_header(rest, pair);
        assert(lead + cookie_header(others, pair) =~= lead + o + seq![';'] + b);
        assert forall|j: int| 0 <= j < o.len() implies #[trigger] o[j] != ';' by {
            assert(others[0][j] != ';');
        }
        lemma_skip_other_pair(o, lead, b);
        assert forall|i: int, j: int|
            0 <= i < rest.len() && 0 <= j < rest[i].len() implies #[trigger] rest[i][j] != ';' by {
            assert(rest[i] == others[i + 1]);
            assert(others[i + 1][j] != ';');
        }
        assert forall|i: int| 0 <= i < rest.len() implies !has_prefix(
            trim(#[trigger] rest[i]),
            cookie_name_eq(),
        ) by {
            assert(rest[i] == others[i + 1]);
        }
        lemma_session_pair_found(rest, secret, seq![' ']);
    }
}

/// What the browser sends back after `build_session_cookie` installs a
/// secret with no `;` and no white space, alone or after other
/// `name=value; ` pairs that are not the session's: `parse_session_cookie`
/// reads that same secret from it.
pub proof fn law_session_cookie_roundtrip(others: Seq<Seq<char>>, secret: Seq<char>)
    requires
        forall|i: int| 0 <= i < secret.len() ==> #[trigger] secret[i] != ';' && !is_white_space(
            secret[i],
        ),
        forall|i: int, j: int|
            0 <= i < others.len() && 0 <= j < others[i].len() ==> #[trigger] others[i][j] != ';',
        forall|i: int|
            0 <= i < others.len() ==> !has_prefix(trim(#[trigger] others[i]), cookie_name_eq()),
    ensures
        session_cookie_of(Some(cookie_header(others, cookie_name_eq() + secret))) == Some(secret),
{
    lemma_session_pair_found(others, secret, Seq::<char>::empty());
    assert(Seq::<char>::empty() + cookie_header(others, cookie_name_eq() + secret) =~= cookie_header(
        others,
        cookie_name_eq() + secret,
    ));
}

// ---------- credential checks ----------

/// Methods that change nothing: `GET`, `HEAD`, `OPTIONS`.
pub open spec fn is_safe_method_spec(m: Seq<char>) -> bool {
    m == "GET"@ || m == "HEAD"@ || m == "OPTIONS"@
}

pub fn is_safe_method(method: &str) -> (r: bool)
    ensures
        r == is_safe_method_spec(method@),
{
    str_eq(method, "GET") || str_eq(method, "HEAD") || str_eq(method, "OPTIONS")
}

/// The decision taken on a request to a protected route before any lookup:
/// without credentials 401; over the cookie channel (no Bearer token), a
/// request that may change something must name an agent, else 403
/// `csrf_rejected`. On success, whether the cookie channel is used.
pub fn check_request_credentials(
    has_bearer: bool,
    has_session_cookie: bool,
    method: &str,
    has_agent_key: bool,
) -> (r: Result<bool, ApiError>)
    ensures
        !has_bearer && !has_session_cookie ==> (r matches Err(e) && e.code
            == ErrorCode::Unauthorized),
        !has_bearer && has_session_cookie && !is_safe_method_spec(method@) && !has_agent_key
            ==> (r matches Err(e) && e.code == ErrorCode::CsrfRejected),
        has_bearer ==> r == Ok::<bool, ApiError>(false),
        !has_bearer && has_session_cookie && (is_safe_method_spec(method@) || has_agent_key)
            ==> r == Ok::<bool, ApiError>(true),
{
    if !has_bearer && !has_session_cookie {
        return Err(ApiError::unauthorized("missing credentials"));
    }
    let via_cookie = !has_bearer;
    let safe = is_safe_method(method);
    if via_cookie && !safe && !has_agent_key {
        return Err(
            ApiError::new(ErrorCode::CsrfRejected, "cookie-channel mutations require X-Agent-Key"),
        );
    }
    Ok(via_cookie)
}

/// An authenticated caller, as the middleware hands it to the handlers.
#[derive(Debug, Clone)]
pub struct Auth {
    pub account: AccountSummary,
    /// Bearer: the token's id; cookie: the token the session was issued from.
    pub token_id: String,
    pub session_id: Option<String>,
    pub via_cookie: bool,
    /// The agent named by `X-Agent-Key`, when the request carried one.
    pub agent: Option<AgentInfo>,
}

impl Auth {
    /// Handlers acting as an agent need `X-Agent-Key`; without it 422.
    pub fn require_agent(&self) -> (r: Result<&AgentInfo, ApiError>)
        ensures
            match &self.agent {
                Some(a) => r == Ok::<&AgentInfo, ApiError>(a),
                None => r matches Err(e) && e.code == ErrorCode::ValidationError,
            },
    {
        match &self.agent {
            Some(a) => Ok(a),
            None => Err(ApiError::validation("missing X-Agent-Key header")),
        }
    }
}

/// Login exchanges a Bearer token for a session; without one 401.
pub fn login_token(authorization: Option<&str>) -> (r: Result<String, ApiError>)
    ensures
        match bearer_of(opt_view(authorization)) {
            Some(t) => r matches Ok(s) && s@ == t,
            None => r matches Err(e) && e.code == ErrorCode::Unauthorized,
        },
{
    match parse_bearer(authorization) {
        Some(t) => Ok(t),
        None => Err(ApiError::unauthorized("login requires Bearer token")),
    }
}

/// Logout is a cookie-channel operation: a request with an `Authorization`
/// header and no session cookie is refused with 422.
pub fn check_logout(has_authorization: bool, has_session_cookie: bool) -> (r: Result<(), ApiError>)
    ensures
        r is Err <==> (has_authorization && !has_session_cookie),
        r matches Err(e) ==> e.code == ErrorCode::ValidationError,
{
    if has_authorization && !has_session_cookie {
        Err(ApiError::validation("logout is a cookie-channel operation"))
    } else {
        Ok(())
    }
}

// ---------- session policy ----------

/// How many of an account's oldest sessions a new login evicts.
pub fn sessions_to_evict(count: u32) -> (n: u32)
    ensures
        n == if count >= MAX_SESSIONS_PER_ACCOUNT {
            count - MAX_SESSIONS_PER_ACCOUNT + 1
        } else {
            0
        },
{
    if count >= MAX_SESSIONS_PER_ACCOUNT {
        count - MAX_SESSIONS_PER_ACCOUNT + 1
    } else {
        0
    }
}

/// After the eviction and the new session, an account holds at most
/// `MAX_SESSIONS_PER_ACCOUNT` sessions, and no session is evicted while
/// fewer are held.
pub proof fn law_session_cap(count: u32)
    ensures
        ({
            let n = if count >= MAX_SESSIONS_PER_ACCOUNT {
                count - MAX_SESSIONS_PER_ACCOUNT + 1
            } else {
                0
            };
            &&& count - n + 1 <= MAX_SESSIONS_PER_ACCOUNT
            &&& count < MAX_SESSIONS_PER_ACCOUNT ==> n == 0
        }),
{
}

/// Expiry of a session created or renewed at `now_ms`.
pub fn session_expiry(now_ms: i64) -> (e: i64)
    requires
        now_ms <= i64::MAX - SESSION_TTL_MS,
    ensures
        e == now_ms + SESSION_TTL_MS,
{
    now_ms + SESSION_TTL_MS
}

/// A session in use is renewed when less than 3.5 days remain.
pub fn should_renew(expires_at_ms: i64, now_ms: i64) -> (r: bool)
    ensures
        r == (expires_at_ms - now_ms < SESSION_RENEW_BELOW_MS),
{
    (expires_at_ms as i128) - (now_ms as i128) < SESSION_RENEW_BELOW_MS as i128
}

/// Usage timestamps older than this are rewritten (once per minute).
pub fn touch_cutoff(now_ms: i64) -> (c: i64)
    requires
        now_ms >= i64::MIN + TOUCH_THROTTLE_MS,
    ensures
        c == now_ms - TOUCH_THROTTLE_MS,
{
    now_ms - TOUCH_THROTTLE_MS
}

/// A session renewed at `now_ms` is not renewed again for 3.5 days.
pub proof fn law_renewal_is_sliding(now_ms: i64, later_ms: i64)
    requires
        now_ms <= i64::MAX - SESSION_TTL_MS,
        now_ms <= later_ms < now_ms + SESSION_TTL_MS - SESSION_RENEW_BELOW_MS,
    ensures
        !((now_ms + SESSION_TTL_MS) - later_ms < SESSION_RENEW_BELOW_MS),
{
}

} // verus!
