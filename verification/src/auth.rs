//! Google sign-in and the sealed cookies it rests on: PKCE, the consent
//! URL, the callback's checks, where a login returns to, the session
//! secret's minimum length, and the session and flow cookies, sealed with
//! the `cookie` crate's private jar and read back out of a `Cookie` header.
use vstd::prelude::*;
use base64::Engine;
use vstd::string::StringSliceAdditionalSpecFns;
use crate::dedupe::{sha256, sha256_digest};
use crate::models::User;
use crate::text::{push_str, push_char, chars_of, string_of, starts, starts_with, trim_end, trim_end_char, trim,
    trimmed, find_char, first_index, slice, decimal, lead_white, trail_white, is_white, lemma_first_index};

verus! {

/// The base64url alphabet of RFC 4648 section 5.
pub open spec fn b64_char(v: nat) -> char {
    if v < 26 {
        (('A' as u32) + v) as char
    } else if v < 52 {
        (('a' as u32) + (v - 26)) as char
    } else if v < 62 {
        (('0' as u32) + (v - 52)) as char
    } else if v == 62 {
        '-'
    } else {
        '_'
    }
}

/// Base64url without padding (RFC 4648 section 5): each three bytes become
/// four characters of six bits each, and a final one or two bytes become two
/// or three characters.
pub open spec fn spec_b64url(b: Seq<u8>) -> Seq<char>
    decreases b.len(),
{
    if b.len() == 0 {
        Seq::empty()
    } else if b.len() == 1 {
        seq![b64_char((b[0] / 4) as nat), b64_char(((b[0] % 4) * 16) as nat)]
    } else if b.len() == 2 {
        seq![b64_char((b[0] / 4) as nat), b64_char(((b[0] % 4) * 16 + b[1] / 16) as nat),
            b64_char(((b[1] % 16) * 4) as nat)]
    } else {
        seq![b64_char((b[0] / 4) as nat), b64_char(((b[0] % 4) * 16 + b[1] / 16) as nat),
            b64_char(((b[1] % 16) * 4 + b[2] / 64) as nat), b64_char((b[2] % 64) as nat)]
            + spec_b64url(b.skip(3))
    }
}

/// `base64::engine::general_purpose::URL_SAFE_NO_PAD.encode`: the RFC 4648
/// url-safe alphabet without `=` padding, as the crate documents it.
#[verifier::external_body]
fn b64url_encode(bytes: &[u8]) -> (r: String)
    ensures
        r@ == spec_b64url(bytes@),
{
    base64::engine::general_purpose::URL_SAFE_NO_PAD.encode(bytes)
}

/// `rand::fill` on a fresh buffer: `n` bytes from the thread-local
/// generator. Nothing is claimed of their values.
#[verifier::external_body]
fn random_bytes(n: usize) -> (r: Vec<u8>)
    ensures
        r@.len() == n,
{
    let mut buf = vec![0u8; n];
    rand::fill(buf.as_mut_slice());
    buf
}

/// `n` random bytes in base64url without padding: a CSRF state or a PKCE
/// verifier.
pub fn random_url_safe(n: usize) -> (r: String)
    ensures
        exists|b: Seq<u8>| b.len() == n && r@ == spec_b64url(b),
{
    let b = random_bytes(n);
    let r = b64url_encode(&b);
    proof { assert(b@.len() == n && r@ == spec_b64url(b@)); }
    r
}

/// The PKCE S256 challenge for a verifier: base64url of its SHA-256,
/// without padding.
pub fn pkce_challenge(verifier: &str) -> (r: String)
    ensures
        r@ == spec_b64url(sha256(verifier.spec_bytes())),
{
    let digest = sha256_digest(verifier.as_bytes());
    b64url_encode(&digest)
}

/// Shortest `SESSION_SECRET` accepted, in bytes.
pub const MIN_SECRET_BYTES: usize = 32;

/// Whether a session secret is long enough to derive cookie keys from;
/// shorter ones switch sessions off.
pub fn session_secret_ok(secret: &str) -> (r: bool)
    ensures
        r == (secret.len() >= MIN_SECRET_BYTES),
{
    secret.len() >= MIN_SECRET_BYTES
}

/// Cookies are marked `Secure` when the site is served over HTTPS.
pub fn secure_cookies(origin: Option<&str>) -> (r: bool)
    ensures
        r == (match origin { Some(o) => starts(o@, "https://"@), None => false }),
{
    match origin {
        Some(o) => {
            let c = chars_of(o);
            starts_with(&c, "https://")
        }
        None => false,
    }
}

/// Where Google sends the visitor back: the site origin (or the local
/// default) without trailing slashes, then the callback path.
pub fn callback_url(origin: Option<&str>) -> (r: String)
    ensures
        r@ == trim_end(match origin { Some(o) => o@, None => "http://127.0.0.1:3100"@ }, '/')
            + "/auth/google/callback"@,
{
    let o = match origin {
        Some(o) => chars_of(o),
        None => chars_of("http://127.0.0.1:3100"),
    };
    let t = trim_end_char(&o, '/');
    let mut r = string_of(&t);
    push_str(&mut r, "/auth/google/callback");
    r
}

/// Google's consent screen for this login attempt.
pub open spec fn spec_auth_url(client_id: Seq<char>, redirect_uri: Seq<char>, state: Seq<char>, challenge: Seq<char>)
    -> Seq<char> {
    "https://accounts.google.com/o/oauth2/v2/auth?client_id="@ + client_id + "&redirect_uri="@ + redirect_uri
        + "&response_type=code&scope=openid%20email%20profile&state="@ + state + "&code_challenge="@ + challenge
        + "&code_challenge_method=S256&access_type=online&prompt=select_account"@
}

pub fn auth_url(client_id: &str, redirect_uri: &str, state: &str, challenge: &str) -> (r: String)
    ensures
        r@ == spec_auth_url(client_id@, redirect_uri@, state@, challenge@),
{
    let mut r = String::new();
    push_str(&mut r, "https://accounts.google.com/o/oauth2/v2/auth?client_id=");
    push_str(&mut r, client_id);
    push_str(&mut r, "&redirect_uri=");
    push_str(&mut r, redirect_uri);
    push_str(&mut r, "&response_type=code&scope=openid%20email%20profile&state=");
    push_str(&mut r, state);
    push_str(&mut r, "&code_challenge=");
    push_str(&mut r, challenge);
    push_str(&mut r, "&code_challenge_method=S256&access_type=online&prompt=select_account");
    r
}

/// What travels in the short-lived flow cookie between the login redirect
/// and the callback.
#[derive(Debug)]
pub struct FlowState {
    pub pkce_verifier: String,
    pub csrf_state: String,
    /// Where to go after signing in.
    pub return_to: String,
}

/// The callback's state must be exactly the one this login started with.
pub fn check_state(flow: &FlowState, query_state: &str) -> (r: Result<(), String>)
    ensures
        flow.csrf_state@ == query_state@ ==> r is Ok,
        flow.csrf_state@ != query_state@ ==> (r matches Err(m)
            && m@ == "state mismatch \u{2014} possible CSRF, aborting login"@),
{
    let a = chars_of(flow.csrf_state.as_str());
    if crate::text::equals(&a, query_state) {
        Ok(())
    } else {
        let mut m = String::new();
        push_str(&mut m, "state mismatch \u{2014} possible CSRF, aborting login");
        Err(m)
    }
}

/// A completed sign-in: the user, the two `Set-Cookie` values, and where
/// to send them.
#[derive(Debug)]
pub struct LoginResult {
    pub user: User,
    pub session_set_cookie: String,
    pub clear_flow_set_cookie: String,
    pub return_to: String,
}

/// The parts of a `Cookie` header, each trimmed.
pub open spec fn cookie_parts(h: Seq<char>) -> Seq<Seq<char>>
    decreases h.len(),
{
    match first_index(h, ';') {
        Some(i) => {
            proof { crate::text::lemma_first_index(h, ';'); }
            seq![trimmed(h.take(i))] + cookie_parts(h.skip(i + 1))
        },
        None => seq![trimmed(h)],
    }
}

/// Splits a `Cookie` header at each `;`, trimming every part, as the jar is
/// filled from it.
pub fn cookie_header_parts(header: &str) -> (r: Vec<String>)
    ensures
        r@.len() == cookie_parts(header@).len(),
        forall|k: int| 0 <= k < r@.len() ==> (#[trigger] r@[k])@ == cookie_parts(header@)[k],
{
    let c = chars_of(header);
    let mut out: Vec<String> = Vec::new();
    let mut lo: usize = 0;
    let ghost done: Seq<Seq<char>> = Seq::empty();
    proof { assert(c@.skip(0) =~= c@); }
    loop
        invariant_except_break
            lo <= c.len(),
            done + cookie_parts(c@.skip(lo as int)) == cookie_parts(c@),
            out@.len() == done.len(),
            forall|k: int| 0 <= k < out@.len() ==> (#[trigger] out@[k])@ == done[k],
        ensures
            done == cookie_parts(c@),
            out@.len() == done.len(),
            forall|k: int| 0 <= k < out@.len() ==> (#[trigger] out@[k])@ == done[k],
        decreases c.len() - lo,
    {
        let rest = slice(&c, lo, c.len());
        proof { assert(rest@ =~= c@.skip(lo as int)); }
        match find_char(&rest, ';') {
            Some(i) => {
                let part = slice(&rest, 0, i);
                let t = trim(&part);
                out.push(string_of(&t));
                proof {
                    assert(part@ =~= rest@.take(i as int));
                    assert(rest@.skip(i as int + 1) =~= c@.skip(lo + i + 1));
                    assert(done.push(trimmed(rest@.take(i as int))) + cookie_parts(rest@.skip(i as int + 1))
                        =~= done + cookie_parts(rest@));
                    done = done.push(trimmed(rest@.take(i as int)));
                }
                lo = lo + i + 1;
            }
            None => {
                let t = trim(&rest);
                out.push(string_of(&t));
                proof {
                    assert(done.push(trimmed(rest@)) =~= done + cookie_parts(rest@));
                    done = done.push(trimmed(rest@));
                }
                break;
            }
        }
    }
    out
}

/// The query of `/auth/google/login`.
// ---------------------------------------------------------------------------
// Sealed cookies

/// The session cookie: the signed-in user's id, sealed.
pub const SESSION_COOKIE: &'static str = "session";
/// The sign-in flow's cookie: its PKCE verifier, CSRF state and return
/// path, sealed, for the trip to Google and back.
pub const FLOW_COOKIE: &'static str = "oauth_flow";
/// The flow cookie lasts ten minutes.
pub const FLOW_MAX_AGE_SECS: u32 = 600;
/// The session cookie lasts a year.
pub const SESSION_MAX_AGE_SECS: u32 = 31536000;

/// The characters of standard base64, padding included: what a sealed
/// value is written in.
pub open spec fn is_b64_std(c: char) -> bool {
    ('A' <= c && c <= 'Z') || ('a' <= c && c <= 'z') || ('0' <= c && c <= '9') || c == '+' || c == '/' || c == '='
}

/// The `SameSite` attribute a cookie carries.
#[derive(Clone, Copy, Debug, PartialEq, Eq, Structural)]
pub enum SameSitePolicy {
    Strict,
    Lax,
    /// Written `SameSite=None`.
    NoRestriction,
}

pub open spec fn same_site_word(p: SameSitePolicy) -> Seq<char> {
    match p {
        SameSitePolicy::Strict => "Strict"@,
        SameSitePolicy::Lax => "Lax"@,
        SameSitePolicy::NoRestriction => "None"@,
    }
}

/// The attributes a sealed cookie is set with.
#[derive(Clone, Copy, Debug)]
pub struct CookieAttrs {
    pub path: &'static str,
    pub http_only: bool,
    pub same_site: SameSitePolicy,
    pub secure: bool,
    pub max_age: u32,
}

/// The attributes every sealed cookie of the site gets: the whole site as
/// its path, hidden from scripts, sent on top-level navigation from other
/// sites, `Secure` as asked, and the given lifetime.
pub open spec fn site_attrs(a: CookieAttrs, secure: bool, max_age: u32) -> bool {
    &&& a.path@ == "/"@
    &&& a.http_only
    &&& a.same_site == SameSitePolicy::Lax
    &&& a.secure == secure
    &&& a.max_age == max_age
}

/// The site's attributes for a sealed cookie.
pub fn sealed_cookie_attrs(secure: bool, max_age: u32) -> (r: CookieAttrs)
    ensures
        site_attrs(r, secure, max_age),
{
    CookieAttrs { path: "/", http_only: true, same_site: SameSitePolicy::Lax, secure, max_age }
}

/// The `Set-Cookie` line of a sealed cookie, with its attributes in the
/// order the `cookie` crate writes them (`Secure` only when set, as
/// `set_secure` is always called).
pub open spec fn set_cookie_line(name: Seq<char>, sealed: Seq<char>, a: CookieAttrs) -> Seq<char> {
    name + "="@ + sealed + (if a.http_only { "; HttpOnly"@ } else { Seq::empty() })
        + "; SameSite="@ + same_site_word(a.same_site) + (if a.secure { "; Secure"@ } else { Seq::empty() })
        + "; Path="@ + a.path@ + "; Max-Age="@ + decimal(a.max_age as nat)
}

/// Whether `line` is the `Set-Cookie` line of cookie `name` sealing `value`
/// under `secret` with attributes `a`: some base64 text that opens to
/// `value`.
pub open spec fn is_sealed_line(line: Seq<char>, secret: Seq<u8>, name: Seq<char>, value: Seq<char>, a: CookieAttrs)
    -> bool {
    exists|sealed: Seq<char>| line == set_cookie_line(name, sealed, a)
        && (forall|j: int| 0 <= j < sealed.len() ==> is_b64_std(#[trigger] sealed[j]))
        && opened(secret, name, sealed) == Some(value)
}

/// What opening a sealed value of cookie `name` gives under the key derived
/// from `secret`: the plaintext, or nothing when the seal does not check.
pub uninterp spec fn opened(secret: Seq<u8>, name: Seq<char>, sealed: Seq<char>) -> Option<Seq<char>>;

/// `Key::derive_from` on the secret, then a private `CookieJar`'s `add` of
/// the cookie with the given path, `HttpOnly`, `SameSite`, `Secure` and
/// `Max-Age`, and the jar's delta written out. The private jar encrypts the
/// value with AES-256-GCM under a fresh random nonce, with the name as
/// associated data, and writes nonce, ciphertext and tag in standard
/// base64; opening that value under the same key and name gives the value
/// back. Which sealed text comes out is left open: it depends on the nonce.
/// The crate panics when the operating system has no randomness to give.
#[verifier::external_body]
fn seal(secret: &str, name: &str, value: &str, a: &CookieAttrs) -> (r: String)
    requires
        secret.len() >= MIN_SECRET_BYTES,
    ensures
        is_sealed_line(r@, secret.spec_bytes(), name@, value@, *a),
{
    let key = cookie::Key::derive_from(secret.as_bytes());
    let mut c = cookie::Cookie::new(name.to_string(), value.to_string());
    c.set_path(a.path);
    c.set_http_only(a.http_only);
    c.set_same_site(match a.same_site {
        SameSitePolicy::Strict => cookie::SameSite::Strict,
        SameSitePolicy::Lax => cookie::SameSite::Lax,
        SameSitePolicy::NoRestriction => cookie::SameSite::None,
    });
    c.set_secure(a.secure);
    c.set_max_age(cookie::time::Duration::seconds(a.max_age as i64));
    let mut jar = cookie::CookieJar::new();
    jar.private_mut(&key).add(c);
    jar.delta().next().map(|c| c.to_string()).unwrap_or_default()
}

/// `Key::derive_from` on the secret, then a private `CookieJar`'s `get` of a
/// jar holding just this cookie: the opened value, or `None` when it does
/// not open under that key and name.
#[verifier::external_body]
fn open_sealed(secret: &str, name: &str, sealed: &str) -> (r: Option<String>)
    requires
        secret.len() >= MIN_SECRET_BYTES,
    ensures
        match r {
            Some(v) => opened(secret.spec_bytes(), name@, sealed@) == Some(v@),
            None => opened(secret.spec_bytes(), name@, sealed@) is None,
        },
{
    let key = cookie::Key::derive_from(secret.as_bytes());
    let mut jar = cookie::CookieJar::new();
    jar.add_original(cookie::Cookie::new(name.to_string(), sealed.to_string()));
    let got = jar.private(&key).get(name);
    got.map(|c| c.value().to_string())
}

/// What `Cookie::parse` reads from one part of a `Cookie` header with no
/// `;` in it: the text split at its first `=`, name and value each trimmed;
/// nothing without an `=` or with an empty name.
pub open spec fn spec_parse_pair(p: Seq<char>) -> Option<(Seq<char>, Seq<char>)> {
    match first_index(p, '=') {
        Some(i) => if trimmed(p.take(i)).len() == 0 {
            None
        } else {
            Some((trimmed(p.take(i)), trimmed(p.skip(i + 1))))
        },
        None => None,
    }
}

/// `Cookie::parse`, keeping the name and value.
#[verifier::external_body]
fn parse_pair(part: &str) -> (r: Option<(String, String)>)
    requires
        first_index(part@, ';') is None,
    ensures
        match r {
            Some((n, v)) => spec_parse_pair(part@) == Some((n@, v@)),
            None => spec_parse_pair(part@) is None,
        },
{
    match cookie::Cookie::parse(part) {
        Ok(c) => Some((c.name().to_string(), c.value().to_string())),
        Err(_) => None,
    }
}

/// The value of the last cookie called `name` among the parts: a jar seeded
/// with the parts in order keeps one cookie per name, the last.
pub open spec fn last_named(parts: Seq<Seq<char>>, name: Seq<char>) -> Option<Seq<char>>
    decreases parts.len(),
{
    if parts.len() == 0 {
        None
    } else {
        match spec_parse_pair(parts.last()) {
            Some((n, v)) => if n == name { Some(v) } else { last_named(parts.drop_last(), name) },
            None => last_named(parts.drop_last(), name),
        }
    }
}

/// The value a `Cookie` header gives a cookie, if any.
pub open spec fn header_value(header: Seq<char>, name: Seq<char>) -> Option<Seq<char>> {
    last_named(cookie_parts(header), name)
}

/// What reading a sealed cookie out of a request gives.
pub open spec fn spec_read_sealed(secret: Seq<u8>, header: Option<Seq<char>>, name: Seq<char>) -> Option<Seq<char>> {
    match header {
        Some(h) => match header_value(h, name) {
            Some(s) => opened(secret, name, s),
            None => None,
        },
        None => None,
    }
}

proof fn lemma_cookie_parts_have_no_semicolon(h: Seq<char>)
    ensures
        forall|k: int| 0 <= k < cookie_parts(h).len() ==> first_index(#[trigger] cookie_parts(h)[k], ';') is None,
    decreases h.len(),
{
    lemma_first_index(h, ';');
    match first_index(h, ';') {
        Some(i) => {
            lemma_cookie_parts_have_no_semicolon(h.skip(i + 1));
            let head = trimmed(h.take(i));
            lemma_trimmed_is_inside(h.take(i));
            assert forall|j: int| 0 <= j < head.len() implies head[j] != ';' by {
                assert(head[j] == h.take(i)[j + lead_white(h.take(i))]);
            }
            lemma_no_char_no_index(head, ';');
            assert forall|k: int| 0 <= k < cookie_parts(h).len() implies first_index(#[trigger] cookie_parts(h)[k], ';') is None by {
                if k > 0 {
                    assert(cookie_parts(h)[k] == cookie_parts(h.skip(i + 1))[k - 1]);
                }
            }
        },
        None => {
            let head = trimmed(h);
            lemma_trimmed_is_inside(h);
            assert forall|j: int| 0 <= j < head.len() implies head[j] != ';' by {
                assert(head[j] == h[j + lead_white(h)]);
            }
            lemma_no_char_no_index(head, ';');
        },
    }
}

proof fn lemma_no_char_no_index(s: Seq<char>, c: char)
    requires
        forall|j: int| 0 <= j < s.len() ==> s[j] != c,
    ensures
        first_index(s, c) is None,
{
    lemma_first_index(s, c);
}

proof fn lemma_trail_white_le(s: Seq<char>)
    ensures
        trail_white(s) <= s.len(),
    decreases s.len(),
{
    if s.len() > 0 && is_white(s.last()) {
        lemma_trail_white_le(s.drop_last());
    }
}

/// `trimmed(s)` is a stretch of `s`, starting after its leading white space.
proof fn lemma_trimmed_is_inside(s: Seq<char>)
    ensures
        forall|j: int| 0 <= j < trimmed(s).len() ==>
            j + lead_white(s) < s.len() && #[trigger] trimmed(s)[j] == s[j + lead_white(s)],
{
    crate::text::lemma_lead_white(s);
    let t = s.skip(lead_white(s) as int);
    lemma_trail_white_le(t);
}

#[verifier::external_type_specification]
#[verifier::external_body]
pub struct ExCookieJar(cookie::CookieJar);

/// What a `CookieJar`'s `get` finds, by cookie name: the value of the cookie
/// of that name it holds.
pub uninterp spec fn jar_cookies(jar: cookie::CookieJar) -> Map<Seq<char>, Seq<char>>;

/// Whether a `CookieJar` has had cookies added or removed through `add` or
/// `remove`, which `get` looks at before the original cookies.
pub uninterp spec fn jar_has_changes(jar: cookie::CookieJar) -> bool;

/// `CookieJar::new`: an empty jar.
#[verifier::external_body]
fn jar_new() -> (jar: cookie::CookieJar)
    ensures
        jar_cookies(jar).dom().is_empty(),
        !jar_has_changes(jar),
{
    cookie::CookieJar::new()
}

/// `CookieJar::add_original` of `Cookie::new(name, value)`: the jar's
/// original cookies are keyed by name, so the cookie replaces any earlier
/// one of that name, and with no cookie added through `add` that is what
/// `get` finds.
#[verifier::external_body]
fn jar_add_original(jar: &mut cookie::CookieJar, name: &str, value: &str)
    requires
        !jar_has_changes(*old(jar)),
    ensures
        jar_cookies(*final(jar)) == jar_cookies(*old(jar)).insert(name@, value@),
        !jar_has_changes(*final(jar)),
{
    jar.add_original(cookie::Cookie::new(name.to_string(), value.to_string()));
}

/// `CookieJar::get`, keeping the value: the cookie of that name, if the jar
/// holds one.
#[verifier::external_body]
fn jar_get(jar: &cookie::CookieJar, name: &str) -> (r: Option<String>)
    ensures
        match r {
            Some(v) => jar_cookies(*jar).contains_key(name@) && jar_cookies(*jar)[name@] == v@,
            None => !jar_cookies(*jar).contains_key(name@),
        },
{
    jar.get(name).map(|c| c.value().to_string())
}

/// The cookies a jar seeded with the parts in order holds, by name.
pub open spec fn jar_of(parts: Seq<Seq<char>>) -> Map<Seq<char>, Seq<char>>
    decreases parts.len(),
{
    if parts.len() == 0 {
        Map::empty()
    } else {
        match spec_parse_pair(parts.last()) {
            Some((n, v)) => jar_of(parts.drop_last()).insert(n, v),
            None => jar_of(parts.drop_last()),
        }
    }
}

proof fn lemma_jar_of_keeps_the_last(parts: Seq<Seq<char>>, name: Seq<char>)
    ensures
        last_named(parts, name) == (if jar_of(parts).contains_key(name) { Some(jar_of(parts)[name]) } else { None }),
    decreases parts.len(),
{
    if parts.len() > 0 {
        lemma_jar_of_keeps_the_last(parts.drop_last(), name);
    }
}

/// The value of cookie `name` in a `Cookie` header: the header's parts go
/// into a cookie jar in order, and the jar is asked for the name.
pub fn cookie_value(header: &str, name: &str) -> (r: Option<String>)
    ensures
        match r {
            Some(v) => header_value(header@, name@) == Some(v@),
            None => header_value(header@, name@) is None,
        },
{
    let parts = cookie_header_parts(header);
    proof { lemma_cookie_parts_have_no_semicolon(header@); }
    let ghost ps = cookie_parts(header@);
    let mut jar = jar_new();
    let mut i: usize = 0;
    proof {
        assert(ps.take(0) =~= Seq::<Seq<char>>::empty());
        assert(jar_cookies(jar) =~= Map::<Seq<char>, Seq<char>>::empty());
    }
    while i < parts.len()
        invariant
            ps == cookie_parts(header@),
            i <= parts@.len(),
            parts@.len() == ps.len(),
            forall|k: int| 0 <= k < parts@.len() ==> (#[trigger] parts@[k])@ == ps[k],
            forall|k: int| 0 <= k < ps.len() ==> first_index(#[trigger] ps[k], ';') is None,
            jar_cookies(jar) == jar_of(ps.take(i as int)),
            !jar_has_changes(jar),
        decreases parts.len() - i,
    {
        let found = parse_pair(parts[i].as_str());
        proof {
            assert(ps.take(i as int + 1).last() == ps[i as int]);
            assert(ps.take(i as int + 1).drop_last() =~= ps.take(i as int));
        }
        match found {
            Some((n, v)) => {
                jar_add_original(&mut jar, n.as_str(), v.as_str());
            }
            None => {}
        }
        i = i + 1;
    }
    proof {
        assert(ps.take(ps.len() as int) =~= ps);
        lemma_jar_of_keeps_the_last(ps, name@);
    }
    jar_get(&jar, name)
}

/// Whether cookies go out marked `Secure`, as `secure_cookies` decides.
pub open spec fn spec_secure_cookies(origin: Option<Seq<char>>) -> bool {
    match origin {
        Some(o) => starts(o, "https://"@),
        None => false,
    }
}

/// The flow cookie's `Set-Cookie` line, sealing the flow's written-out
/// state for ten minutes.
pub fn flow_set_cookie(secret: &str, flow_json: &str, origin: Option<&str>) -> (r: String)
    requires
        secret.len() >= MIN_SECRET_BYTES,
    ensures
        exists|a: CookieAttrs| site_attrs(a, spec_secure_cookies(opt_view(origin)), FLOW_MAX_AGE_SECS)
            && #[trigger] is_sealed_line(r@, secret.spec_bytes(), FLOW_COOKIE@, flow_json@, a),
{
    let a = sealed_cookie_attrs(secure_cookies(origin), FLOW_MAX_AGE_SECS);
    seal(secret, FLOW_COOKIE, flow_json, &a)
}

/// The session cookie's `Set-Cookie` line, sealing a user's id for a year.
pub fn session_set_cookie(secret: &str, user_id: &str, origin: Option<&str>) -> (r: String)
    requires
        secret.len() >= MIN_SECRET_BYTES,
    ensures
        exists|a: CookieAttrs| site_attrs(a, spec_secure_cookies(opt_view(origin)), SESSION_MAX_AGE_SECS)
            && #[trigger] is_sealed_line(r@, secret.spec_bytes(), SESSION_COOKIE@, user_id@, a),
{
    let a = sealed_cookie_attrs(secure_cookies(origin), SESSION_MAX_AGE_SECS);
    seal(secret, SESSION_COOKIE, user_id, &a)
}

/// The `Set-Cookie` line removing cookie `name`, which names no path: an
/// empty value, `Max-Age=0`, and an expiry date in the past.
pub open spec fn removal_text(name: Seq<char>, expires: Seq<char>) -> Seq<char> {
    name + "=; Max-Age=0; Expires="@ + expires
}

/// The same for a cookie set on `path`.
pub open spec fn removal_text_at(name: Seq<char>, path: Seq<char>, expires: Seq<char>) -> Seq<char> {
    name + "=; Path="@ + path + "; Max-Age=0; Expires="@ + expires
}

/// `Cookie::new(name, "")` added to a `CookieJar` as an original and then
/// removed; the jar's delta then holds the removal, which `make_removal`
/// gives an empty value, `Max-Age=0` and an expiry a year before the
/// current time. The date is the clock's.
#[verifier::external_body]
fn removal_line(name: &str) -> (r: String)
    ensures
        exists|expires: Seq<char>| r@ == #[trigger] removal_text(name@, expires),
{
    let c = cookie::Cookie::new(name.to_string(), "");
    let mut jar = cookie::CookieJar::new();
    jar.add_original(c.clone());
    jar.remove(c);
    jar.delta().next().map(|c| c.to_string()).unwrap_or_default()
}

/// As `removal_line`, for a cookie whose path is set to `path` first.
#[verifier::external_body]
fn removal_line_at(name: &str, path: &str) -> (r: String)
    ensures
        exists|expires: Seq<char>| r@ == #[trigger] removal_text_at(name@, path@, expires),
{
    let mut c = cookie::Cookie::new(name.to_string(), "");
    c.set_path(path.to_string());
    let mut jar = cookie::CookieJar::new();
    jar.add_original(c.clone());
    jar.remove(c);
    jar.delta().next().map(|c| c.to_string()).unwrap_or_default()
}

/// The `Set-Cookie` line that ends the sign-in flow by removing its cookie,
/// on the path the flow cookie was set on.
pub fn clear_flow_set_cookie() -> (r: String)
    ensures
        exists|expires: Seq<char>| r@ == #[trigger] removal_text_at(FLOW_COOKIE@, "/"@, expires),
{
    removal_line_at(FLOW_COOKIE, "/")
}

/// The `Set-Cookie` line that signs a visitor out by removing the session
/// cookie. It names no path.
pub fn logout_set_cookie() -> (r: String)
    ensures
        exists|expires: Seq<char>| r@ == #[trigger] removal_text(SESSION_COOKIE@, expires),
{
    removal_line(SESSION_COOKIE)
}

/// The value of a sealed cookie in a request, opened; `None` when the
/// request has no such cookie or its seal does not check.
pub fn read_sealed(secret: &str, header: Option<&str>, name: &str) -> (r: Option<String>)
    requires
        secret.len() >= MIN_SECRET_BYTES,
    ensures
        match r {
            Some(v) => spec_read_sealed(secret.spec_bytes(), opt_view(header), name@) == Some(v@),
            None => spec_read_sealed(secret.spec_bytes(), opt_view(header), name@) is None,
        },
{
    match header {
        Some(h) => match cookie_value(h, name) {
            Some(s) => open_sealed(secret, name, s.as_str()),
            None => None,
        },
        None => None,
    }
}

pub open spec fn opt_view(h: Option<&str>) -> Option<Seq<char>> {
    match h {
        Some(s) => Some(s@),
        None => None,
    }
}

/// A cookie name as the site uses them: not empty, and no `=`, `;` or
/// white space in it.
pub open spec fn is_token(name: Seq<char>) -> bool {
    &&& name.len() > 0
    &&& forall|j: int| 0 <= j < name.len() ==> !is_white(#[trigger] name[j]) && name[j] != '=' && name[j] != ';'
}

/// The `name=value` pair a browser sends back for a `Set-Cookie` line: the
/// line up to its first `;`.
pub open spec fn pair_of(line: Seq<char>) -> Seq<char> {
    match first_index(line, ';') {
        Some(i) => line.take(i),
        None => line,
    }
}

proof fn lemma_trimmed_without_white(s: Seq<char>)
    requires
        forall|j: int| 0 <= j < s.len() ==> !is_white(#[trigger] s[j]),
    ensures
        trimmed(s) == s,
{
    crate::text::lemma_lead_white_is(s, 0);
    assert(s.skip(0) =~= s);
    crate::text::lemma_trail_white_is(s, 0);
    assert(s.take(s.len() as int) =~= s);
}

/// What a sealed cookie's `Set-Cookie` line tells the browser to send
/// back reads back as the value that was sealed, under the same secret.
#[verifier::spinoff_prover]
#[verifier::rlimit(30)]
pub proof fn lemma_sealed_cookie_reads_back(line: Seq<char>, secret: Seq<u8>, name: Seq<char>, value: Seq<char>,
    a: CookieAttrs)
    requires
        is_token(name),
        is_sealed_line(line, secret, name, value, a),
    ensures
        spec_read_sealed(secret, Some(pair_of(line)), name) == Some(value),
{
    let sealed = choose|sealed: Seq<char>| line == set_cookie_line(name, sealed, a)
        && (forall|j: int| 0 <= j < sealed.len() ==> is_b64_std(#[trigger] sealed[j]))
        && opened(secret, name, sealed) == Some(value);
    let pair = name + "="@ + sealed;
    let tail = "; SameSite="@ + same_site_word(a.same_site) + (if a.secure { "; Secure"@ } else { Seq::empty() })
        + "; Path="@ + a.path@ + "; Max-Age="@ + decimal(a.max_age as nat);
    let rest = (if a.http_only { "; HttpOnly"@ } else { Seq::empty() }) + tail;
    reveal_strlit("=");
    reveal_strlit("; HttpOnly");
    reveal_strlit("; SameSite=");
    assert(line =~= pair + rest);
    assert(tail[0] == ';');
    assert(rest[0] == ';');
    let n = name.len() as int;
    // Nothing in the pair is a `;` or white space.
    assert forall|j: int| 0 <= j < pair.len() implies #[trigger] pair[j] != ';' && !is_white(pair[j]) by {
        if j < n {
            assert(pair[j] == name[j]);
        } else if j > n {
            assert(pair[j] == sealed[j - n - 1]);
            assert(is_b64_std(sealed[j - n - 1]));
        }
    }
    assert forall|j: int| 0 <= j < pair.len() implies #[trigger] line[j] != ';' by {
        assert(line[j] == pair[j]);
    }
    assert(line[pair.len() as int] == ';');
    crate::text::lemma_first_index_is(line, ';', pair.len() as int);
    assert(line.take(pair.len() as int) =~= pair);
    assert(pair_of(line) == pair);
    // The header holds one part, the pair itself.
    lemma_first_index(pair, ';');
    lemma_trimmed_without_white(pair);
    assert(cookie_parts(pair) =~= seq![pair]);
    // It parses as `name` and the sealed value.
    assert forall|j: int| 0 <= j < n implies #[trigger] pair[j] != '=' by {
        assert(pair[j] == name[j]);
    }
    assert(pair[n] == '=');
    crate::text::lemma_first_index_is(pair, '=', n);
    assert(pair.take(n) =~= name);
    assert(pair.skip(n + 1) =~= sealed);
    lemma_trimmed_without_white(name);
    assert forall|j: int| 0 <= j < sealed.len() implies !is_white(#[trigger] sealed[j]) by {
        assert(is_b64_std(sealed[j]));
    }
    lemma_trimmed_without_white(sealed);
    assert(spec_parse_pair(pair) == Some((name, sealed)));
    assert(seq![pair].last() == pair);
    assert(last_named(seq![pair], name) == Some(sealed));
}

/// The session cookie written for a user reads back as that user's id.
pub proof fn lemma_session_reads_back(line: Seq<char>, secret: Seq<u8>, user_id: Seq<char>, a: CookieAttrs)
    requires
        is_sealed_line(line, secret, SESSION_COOKIE@, user_id, a),
    ensures
        spec_read_sealed(secret, Some(pair_of(line)), SESSION_COOKIE@) == Some(user_id),
{
    reveal_strlit("session");
    assert(is_token(SESSION_COOKIE@));
    lemma_sealed_cookie_reads_back(line, secret, SESSION_COOKIE@, user_id, a);
}

/// The flow cookie written at the start of a sign-in reads back as the
/// flow state it sealed.
pub proof fn lemma_flow_reads_back(line: Seq<char>, secret: Seq<u8>, flow_json: Seq<char>, a: CookieAttrs)
    requires
        is_sealed_line(line, secret, FLOW_COOKIE@, flow_json, a),
    ensures
        spec_read_sealed(secret, Some(pair_of(line)), FLOW_COOKIE@) == Some(flow_json),
{
    reveal_strlit("oauth_flow");
    assert(is_token(FLOW_COOKIE@));
    lemma_sealed_cookie_reads_back(line, secret, FLOW_COOKIE@, flow_json, a);
}

#[derive(Debug)]
pub struct LoginQuery {
    pub return_to: Option<String>,
}

/// Whether a `return_to` value is a path on this site: it starts with `/`,
/// and not with `//` or `/\`, which browsers read as a link to another
/// host.
pub open spec fn same_origin_path(p: Seq<char>) -> bool {
    starts(p, "/"@) && !starts(p, "//"@) && !starts(p, "/\\"@)
}

/// Where a login returns to: only a path on this site, else the front page.
pub fn login_return_to(q: LoginQuery) -> (r: String)
    ensures
        match q.return_to {
            Some(p) => if same_origin_path(p@) { r@ == p@ } else { r@ == "/"@ },
            None => r@ == "/"@,
        },
{
    match q.return_to {
        Some(p) => {
            let c = chars_of(p.as_str());
            if starts_with(&c, "/") && !starts_with(&c, "//") && !starts_with(&c, "/\\") {
                return p;
            }
        }
        None => {}
    }
    let mut r = String::new();
    push_str(&mut r, "/");
    r
}

/// The query Google's redirect carries back.
#[derive(Debug)]
pub struct CallbackQuery {
    pub code: Option<String>,
    pub state: Option<String>,
    pub error: Option<String>,
}

/// What the callback does with its query: give up with a reason for the
/// front page, or go on with the code and state.
pub fn read_callback(q: CallbackQuery) -> (r: Result<(String, String), &'static str>)
    ensures
        q.error is Some ==> (r matches Err(m) && m@ == "/?login_error=declined"@),
        (q.error is None && (q.code is None || q.state is None)) ==> (r matches Err(m) && m@ == "/?login_error=missing_params"@),
        (q.error is None && q.code is Some && q.state is Some) ==> r == Ok::<(String, String), &'static str>((q.code.unwrap(), q.state.unwrap())),
{
    if q.error.is_some() {
        return Err("/?login_error=declined");
    }
    match (q.code, q.state) {
        (Some(code), Some(state)) => Ok((code, state)),
        _ => Err("/?login_error=missing_params"),
    }
}

} // verus!
