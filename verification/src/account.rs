//! Who is asking, and what the site answers them: the sign-in link that
//! brings a visitor back where they were, an account's initial, and the
//! decisions the API makes before it touches the database.
use vstd::prelude::*;
use crate::models::{Son, User};
use crate::text::{push_str, push_char, push_hex_padded, chars_of, hex, zero_pad, flat_map, lemma_flat_map_step,
    trim, trimmed, string_of, lemma_hex_chars, lemma_hex_len, hex_char, is_hex_digit, hex_digit_value, prepend,
    lemma_hex_char_value, lemma_flat_map_cons};
use crate::unicode::{to_uppercase, unicode_uppercase};

verus! {

/// Characters a `return_to` value keeps as they are.
pub open spec fn url_safe(c: char) -> bool {
    ('A' <= c && c <= 'Z') || ('a' <= c && c <= 'z') || ('0' <= c && c <= '9')
        || c == '-' || c == '_' || c == '.' || c == '~' || c == '/'
}

/// The UTF-8 encoding of a character: one to four bytes.
pub open spec fn utf8_of(c: char) -> Seq<u8> {
    let n = (c as u32) as nat;
    if n < 0x80 {
        seq![n as u8]
    } else if n < 0x800 {
        seq![(0xC0 + n / 64) as u8, (0x80 + n % 64) as u8]
    } else if n < 0x10000 {
        seq![(0xE0 + n / 4096) as u8, (0x80 + (n / 64) % 64) as u8, (0x80 + n % 64) as u8]
    } else {
        seq![(0xF0 + n / 262144) as u8, (0x80 + (n / 4096) % 64) as u8, (0x80 + (n / 64) % 64) as u8,
            (0x80 + n % 64) as u8]
    }
}

/// One byte written as `%` and two upper-case hex digits.
pub open spec fn pct(b: u8) -> Seq<char> {
    seq!['%'] + zero_pad(hex(b as nat, true), 2)
}

/// Every byte written as `%XX`, in order.
pub open spec fn pct_bytes(bs: Seq<u8>) -> Seq<char>
    decreases bs.len(),
{
    if bs.len() == 0 {
        Seq::empty()
    } else {
        pct(bs[0]) + pct_bytes(bs.drop_first())
    }
}

/// How one character is written: itself when safe, otherwise `%XX` for
/// each byte of its UTF-8 encoding.
pub open spec fn url_char(c: char) -> Seq<char> {
    if url_safe(c) { seq![c] } else { pct_bytes(utf8_of(c)) }
}

pub open spec fn spec_urlencode(s: Seq<char>) -> Seq<char> {
    flat_map(s, |c: char| url_char(c))
}

/// Appends `%XX` for one byte.
fn push_pct(r: &mut String, b: u64)
    requires
        b < 256,
    ensures
        final(r)@ == old(r)@ + pct(b as u8),
{
    push_char(r, '%');
    push_hex_padded(r, b, 2, true);
    proof {
        assert((b as u8) as nat == b as nat);
        assert(final(r)@ =~= old(r)@ + pct(b as u8));
    }
}

proof fn lemma_pct_bytes_1(a: u8)
    ensures
        pct_bytes(seq![a]) =~= pct(a),
{
    assert(seq![a].drop_first() =~= Seq::<u8>::empty());
    assert(pct_bytes(seq![a].drop_first()) =~= Seq::<char>::empty());
    assert(pct_bytes(seq![a]) == pct(a) + pct_bytes(seq![a].drop_first()));
    assert(pct(a) + Seq::<char>::empty() =~= pct(a));
}

proof fn lemma_pct_bytes_cons(a: u8, rest: Seq<u8>)
    ensures
        pct_bytes(seq![a] + rest) == pct(a) + pct_bytes(rest),
{
    assert((seq![a] + rest).drop_first() =~= rest);
    assert((seq![a] + rest)[0] == a);
}

/// Appends the `%XX` form of every UTF-8 byte of `ch`.
fn push_utf8_pct(r: &mut String, ch: char)
    requires
        !url_safe(ch),
    ensures
        final(r)@ == old(r)@ + url_char(ch),
{
    let n: u32 = ch as u32;
    let ghost m: nat = (ch as u32) as nat;
    proof { assert(n as nat == m); }
    if n < 0x80 {
        push_pct(r, n as u64);
        proof {
            lemma_pct_bytes_1(n as u8);
            assert(utf8_of(ch) == seq![n as u8]);
        }
    } else if n < 0x800 {
        let b0 = (0xC0 + n / 64) as u64;
        let b1 = (0x80 + n % 64) as u64;
        push_pct(r, b0);
        push_pct(r, b1);
        proof {
            assert(utf8_of(ch) =~= seq![b0 as u8] + seq![b1 as u8]);
            lemma_pct_bytes_cons(b0 as u8, seq![b1 as u8]);
            lemma_pct_bytes_1(b1 as u8);
            assert(final(r)@ =~= old(r)@ + (pct(b0 as u8) + pct(b1 as u8)));
        }
    } else if n < 0x10000 {
        let b0 = (0xE0 + n / 4096) as u64;
        let b1 = (0x80 + (n / 64) % 64) as u64;
        let b2 = (0x80 + n % 64) as u64;
        push_pct(r, b0);
        push_pct(r, b1);
        push_pct(r, b2);
        proof {
            assert(utf8_of(ch) =~= seq![b0 as u8] + (seq![b1 as u8] + seq![b2 as u8]));
            lemma_pct_bytes_cons(b0 as u8, seq![b1 as u8] + seq![b2 as u8]);
            lemma_pct_bytes_cons(b1 as u8, seq![b2 as u8]);
            lemma_pct_bytes_1(b2 as u8);
            assert(final(r)@ =~= old(r)@ + (pct(b0 as u8) + (pct(b1 as u8) + pct(b2 as u8))));
        }
    } else {
        proof { assert(m <= 0x10FFFF); }
        let b0 = (0xF0 + n / 262144) as u64;
        let b1 = (0x80 + (n / 4096) % 64) as u64;
        let b2 = (0x80 + (n / 64) % 64) as u64;
        let b3 = (0x80 + n % 64) as u64;
        push_pct(r, b0);
        push_pct(r, b1);
        push_pct(r, b2);
        push_pct(r, b3);
        proof {
            assert(utf8_of(ch) =~= seq![b0 as u8] + (seq![b1 as u8] + (seq![b2 as u8] + seq![b3 as u8])));
            lemma_pct_bytes_cons(b0 as u8, seq![b1 as u8] + (seq![b2 as u8] + seq![b3 as u8]));
            lemma_pct_bytes_cons(b1 as u8, seq![b2 as u8] + seq![b3 as u8]);
            lemma_pct_bytes_cons(b2 as u8, seq![b3 as u8]);
            lemma_pct_bytes_1(b3 as u8);
            assert(final(r)@ =~= old(r)@ + (pct(b0 as u8) + (pct(b1 as u8) + (pct(b2 as u8) + pct(b3 as u8)))));
        }
    }
}

/// Percent-encodes a path for use as a query value: unsafe characters are
/// written byte by byte in UTF-8, so the value decodes back to the path.
pub fn urlencode(s: &str) -> (r: String)
    ensures
        r@ == spec_urlencode(s@),
{
    let c = chars_of(s);
    let mut r = String::new();
    let mut i: usize = 0;
    proof { assert(c@.take(0) =~= Seq::<char>::empty()); }
    while i < c.len()
        invariant
            i <= c.len(),
            c@ == s@,
            r@ == flat_map(c@.take(i as int), |c: char| url_char(c)),
        decreases c.len() - i,
    {
        proof { lemma_flat_map_step(c@, i as int, |c: char| url_char(c)); }
        let ch = c[i];
        let ghost before = r@;
        if ('A' <= ch && ch <= 'Z') || ('a' <= ch && ch <= 'z') || ('0' <= ch && ch <= '9')
            || ch == '-' || ch == '_' || ch == '.' || ch == '~' || ch == '/' {
            push_char(&mut r, ch);
            proof { assert(before.push(ch) =~= before + url_char(ch)); }
        } else {
            push_utf8_pct(&mut r, ch);
        }
        i = i + 1;
    }
    proof { assert(c@.take(c@.len() as int) =~= c@); }
    r
}

/// `%XX` text holds only `%` and hex digits.
proof fn lemma_pct_chars(b: u8)
    ensures
        forall|j: int| 0 <= j < pct(b).len() ==> (url_safe(#[trigger] pct(b)[j]) || pct(b)[j] == '%'),
{
    lemma_hex_chars(b as nat, true);
    lemma_hex_len(b as nat, true);
    let h = hex(b as nat, true);
    let z = zero_pad(h, 2);
    assert forall|j: int| 0 <= j < pct(b).len() implies (url_safe(#[trigger] pct(b)[j]) || pct(b)[j] == '%') by {
        if j > 0 {
            assert(pct(b)[j] == z[j - 1]);
            if h.len() < 2 && j - 1 < 2 - h.len() {
                assert(z[j - 1] == '0');
            } else if h.len() < 2 {
                assert(z[j - 1] == h[j - 1 - (2 - h.len())]);
            } else {
                assert(z[j - 1] == h[j - 1]);
            }
        }
    }
}

proof fn lemma_pct_bytes_chars(bs: Seq<u8>)
    ensures
        forall|j: int| 0 <= j < pct_bytes(bs).len() ==> (url_safe(#[trigger] pct_bytes(bs)[j]) || pct_bytes(bs)[j] == '%'),
    decreases bs.len(),
{
    if bs.len() > 0 {
        lemma_pct_chars(bs[0]);
        lemma_pct_bytes_chars(bs.drop_first());
        let a = pct(bs[0]);
        let b = pct_bytes(bs.drop_first());
        assert forall|j: int| 0 <= j < pct_bytes(bs).len() implies (url_safe(#[trigger] pct_bytes(bs)[j]) || pct_bytes(bs)[j] == '%') by {
            if j < a.len() {
                assert(pct_bytes(bs)[j] == a[j]);
            } else {
                assert(pct_bytes(bs)[j] == b[j - a.len()]);
            }
        }
    }
}

/// An encoded value holds only safe characters, `%` and hex digits, so it
/// cannot end the query value or start another parameter.
pub proof fn lemma_urlencode_stays_in_the_value(s: Seq<char>)
    ensures
        forall|j: int| 0 <= j < spec_urlencode(s).len() ==>
            (url_safe(#[trigger] spec_urlencode(s)[j]) || spec_urlencode(s)[j] == '%'),
{
    let f = |c: char| url_char(c);
    let bad = |c: char| !(url_safe(c) || c == '%');
    assert forall|c: char, j: int| 0 <= j < f(c).len() implies !bad(#[trigger] f(c)[j]) by {
        if !url_safe(c) {
            lemma_pct_bytes_chars(utf8_of(c));
        }
    }
    crate::text::lemma_flat_map_avoids(s, f, bad);
}


/// `bs` in front of what `v` holds, where it holds anything.
pub open spec fn bytes_then(bs: Seq<u8>, v: Option<Seq<u8>>) -> Option<Seq<u8>> {
    match v {
        Some(v) => Some(bs + v),
        None => None,
    }
}

/// Reading a query value as a form decoder does: `%` and two hex digits is
/// that byte, `+` is a space, and any other character stands for its own
/// UTF-8 bytes (a `%` not followed by two hex digits among them).
pub open spec fn form_decode(t: Seq<char>) -> Seq<u8>
    decreases t.len(),
{
    if t.len() == 0 {
        Seq::empty()
    } else if t[0] == '%' && t.len() >= 3 && is_hex_digit(t[1]) && is_hex_digit(t[2]) {
        seq![(16 * hex_digit_value(t[1]) + hex_digit_value(t[2])) as u8] + form_decode(t.skip(3))
    } else if t[0] == '+' {
        seq![0x20u8] + form_decode(t.drop_first())
    } else {
        utf8_of(t[0]) + form_decode(t.drop_first())
    }
}

/// The UTF-8 bytes of a text.
pub open spec fn utf8_encode(s: Seq<char>) -> Seq<u8>
    decreases s.len(),
{
    if s.len() == 0 { Seq::empty() } else { utf8_of(s[0]) + utf8_encode(s.drop_first()) }
}

/// A UTF-8 continuation byte.
pub open spec fn is_cont(b: u8) -> bool {
    0x80 <= b && b < 0xC0
}

/// Reading bytes as UTF-8; `None` where they are not valid UTF-8 (a stray
/// or missing continuation byte, an overlong form, a surrogate, or a code
/// point past U+10FFFF).
pub open spec fn utf8_decode(bs: Seq<u8>) -> Option<Seq<char>>
    decreases bs.len(),
{
    if bs.len() == 0 {
        Some(Seq::empty())
    } else if bs[0] < 0x80 {
        prepend((bs[0] as u32) as char, utf8_decode(bs.drop_first()))
    } else if 0xC0 <= bs[0] < 0xE0 && bs.len() >= 2 && is_cont(bs[1])
        && (bs[0] - 0xC0) * 64 + (bs[1] - 0x80) >= 0x80 {
        prepend(((bs[0] - 0xC0) * 64 + (bs[1] - 0x80)) as char, utf8_decode(bs.skip(2)))
    } else if 0xE0 <= bs[0] < 0xF0 && bs.len() >= 3 && is_cont(bs[1]) && is_cont(bs[2])
        && (bs[0] - 0xE0) * 4096 + (bs[1] - 0x80) * 64 + (bs[2] - 0x80) >= 0x800
        && !(0xD800 <= (bs[0] - 0xE0) * 4096 + (bs[1] - 0x80) * 64 + (bs[2] - 0x80) <= 0xDFFF) {
        prepend(((bs[0] - 0xE0) * 4096 + (bs[1] - 0x80) * 64 + (bs[2] - 0x80)) as char, utf8_decode(bs.skip(3)))
    } else if 0xF0 <= bs[0] < 0xF8 && bs.len() >= 4 && is_cont(bs[1]) && is_cont(bs[2]) && is_cont(bs[3])
        && 0x10000 <= (bs[0] - 0xF0) * 262144 + (bs[1] - 0x80) * 4096 + (bs[2] - 0x80) * 64 + (bs[3] - 0x80)
        <= 0x10FFFF {
        prepend(((bs[0] - 0xF0) * 262144 + (bs[1] - 0x80) * 4096 + (bs[2] - 0x80) * 64 + (bs[3] - 0x80)) as char,
            utf8_decode(bs.skip(4)))
    } else {
        None
    }
}

/// The UTF-8 bytes of one character read back as that character.
proof fn lemma_utf8_char_reads_back(c: char, rest: Seq<u8>)
    ensures
        utf8_decode(utf8_of(c) + rest) == prepend(c, utf8_decode(rest)),
{
    let n = (c as u32) as nat;
    let t = utf8_of(c) + rest;
    if n < 0x80 {
        assert(t[0] == n as u8);
        assert(t.drop_first() =~= rest);
    } else if n < 0x800 {
        assert(t[0] == (0xC0 + n / 64) as u8 && t[1] == (0x80 + n % 64) as u8);
        assert((t[0] - 0xC0) * 64 + (t[1] - 0x80) == n);
        assert(t.skip(2) =~= rest);
    } else if n < 0x10000 {
        assert(t[0] == (0xE0 + n / 4096) as u8 && t[1] == (0x80 + (n / 64) % 64) as u8
            && t[2] == (0x80 + n % 64) as u8);
        assert((t[0] - 0xE0) * 4096 + (t[1] - 0x80) * 64 + (t[2] - 0x80) == n);
        assert(t.skip(3) =~= rest);
    } else {
        assert(n <= 0x10FFFF);
        assert(t[0] == (0xF0 + n / 262144) as u8 && t[1] == (0x80 + (n / 4096) % 64) as u8
            && t[2] == (0x80 + (n / 64) % 64) as u8 && t[3] == (0x80 + n % 64) as u8);
        assert((t[0] - 0xF0) * 262144 + (t[1] - 0x80) * 4096 + (t[2] - 0x80) * 64 + (t[3] - 0x80) == n);
        assert(t.skip(4) =~= rest);
    }
}

/// UTF-8 encoding loses nothing: the bytes read back as the text.
pub proof fn lemma_utf8_round_trip(s: Seq<char>)
    ensures
        utf8_decode(utf8_encode(s)) == Some(s),
    decreases s.len(),
{
    if s.len() > 0 {
        lemma_utf8_round_trip(s.drop_first());
        lemma_utf8_char_reads_back(s[0], utf8_encode(s.drop_first()));
        assert(seq![s[0]] + s.drop_first() =~= s);
    }
}

/// `%XX` reads back as byte XX.
proof fn lemma_pct_reads_back(b: u8, rest: Seq<char>)
    ensures
        form_decode(pct(b) + rest) == seq![b] + form_decode(rest),
{
    let v = b as nat;
    let h = hex(v, true);
    let t = pct(b) + rest;
    if v < 16 {
        assert(h == seq![hex_char(v, true)]);
        assert(zero_pad(h, 2) =~= seq!['0', hex_char(v, true)]);
        lemma_hex_char_value(v, true);
        lemma_hex_char_value(0, true);
        assert(hex_char(0, true) == '0');
    } else {
        assert(h == hex(v / 16, true).push(hex_char(v % 16, true)));
        assert(hex(v / 16, true) == seq![hex_char(v / 16, true)]);
        assert(zero_pad(h, 2) =~= seq![hex_char(v / 16, true), hex_char(v % 16, true)]);
        lemma_hex_char_value(v / 16, true);
        lemma_hex_char_value(v % 16, true);
    }
    assert(t[0] == '%');
    assert(t.len() >= 3);
    assert((16 * hex_digit_value(t[1]) + hex_digit_value(t[2])) as u8 == b);
    assert(t.skip(3) =~= rest);
}

proof fn lemma_pct_bytes_read_back(bs: Seq<u8>, rest: Seq<char>)
    ensures
        form_decode(pct_bytes(bs) + rest) == bs + form_decode(rest),
    decreases bs.len(),
{
    if bs.len() > 0 {
        lemma_pct_bytes_read_back(bs.drop_first(), rest);
        assert(pct_bytes(bs) + rest =~= pct(bs[0]) + (pct_bytes(bs.drop_first()) + rest));
        lemma_pct_reads_back(bs[0], pct_bytes(bs.drop_first()) + rest);
        assert(seq![bs[0]] + (bs.drop_first() + form_decode(rest)) =~= bs + form_decode(rest));
    } else {
        assert(pct_bytes(bs) + rest =~= rest);
        assert(bs + form_decode(rest) =~= form_decode(rest));
    }
}

proof fn lemma_urlencode_reads_back(s: Seq<char>)
    ensures
        form_decode(spec_urlencode(s)) == utf8_encode(s),
    decreases s.len(),
{
    if s.len() == 0 {
        assert(spec_urlencode(s) == Seq::<char>::empty());
        assert(form_decode(Seq::<char>::empty()) == Seq::<u8>::empty());
    } else {
        let c = s[0];
        let rest = s.drop_first();
        assert(s =~= seq![c] + rest);
        lemma_flat_map_cons(c, rest, |c: char| url_char(c));
        lemma_urlencode_reads_back(rest);
        let r = spec_urlencode(rest);
        if url_safe(c) {
            let t = seq![c] + r;
            assert(t[0] == c && t.drop_first() =~= r);
        } else {
            lemma_pct_bytes_read_back(utf8_of(c), r);
        }
        assert(seq![c] + rest =~= s);
    }
}

/// The `return_to` value in a sign-in link decodes back to the path: a form
/// decoder gives its UTF-8 bytes, and they read as UTF-8 give the path.
pub proof fn lemma_return_to_decodes_back(return_to: Seq<char>)
    ensures
        form_decode(spec_urlencode(return_to)) == utf8_encode(return_to),
        utf8_decode(form_decode(spec_urlencode(return_to))) == Some(return_to),
{
    lemma_urlencode_reads_back(return_to);
    lemma_utf8_round_trip(return_to);
}

/// Where "Sign in" goes, returning the visitor to `return_to` afterwards.
pub fn sign_in_href(return_to: &str) -> (r: String)
    ensures
        r@ == "/auth/google/login?return_to="@ + spec_urlencode(return_to@),
{
    let mut r = String::new();
    push_str(&mut r, "/auth/google/login?return_to=");
    let e = urlencode(return_to);
    push_str(&mut r, e.as_str());
    r
}

/// The letter shown in place of an avatar: the name's first character in
/// upper case, or `?` for an empty name.
pub fn initial(name: &str) -> (r: String)
    ensures
        name@.len() > 0 ==> r@ == unicode_uppercase(name@[0]),
        name@.len() == 0 ==> r@ == "?"@,
{
    let c = chars_of(name);
    if c.len() > 0 {
        to_uppercase(c[0])
    } else {
        let mut r = String::new();
        push_str(&mut r, "?");
        r
    }
}

/// What liking gave: the new count and whether the visitor now likes it,
/// or a request to sign in first.
#[derive(Clone, Copy, Debug, PartialEq, Eq, Structural)]
pub enum LikeOutcome {
    Toggled { count: i64, liked: bool },
    SignInRequired,
}

/// What reporting gave.
#[derive(Clone, Copy, Debug, PartialEq, Eq, Structural)]
pub enum ReportOutcome {
    Recorded,
    SignInRequired,
}

/// A like needs a signed-in visitor; with one, the toggle's result is
/// passed on.
pub fn like_outcome(signed_in: bool, toggled: (i64, bool)) -> (r: LikeOutcome)
    ensures
        r == (if signed_in { LikeOutcome::Toggled { count: toggled.0, liked: toggled.1 } } else { LikeOutcome::SignInRequired }),
{
    if signed_in {
        LikeOutcome::Toggled { count: toggled.0, liked: toggled.1 }
    } else {
        LikeOutcome::SignInRequired
    }
}

/// A report's free-text note: trimmed, and dropped when nothing is left.
pub fn clean_report_message(message: Option<String>) -> (r: Option<String>)
    ensures
        match message {
            Some(m) => if trimmed(m@).len() > 0 {
                r matches Some(t) && t@ == trimmed(m@)
            } else {
                r is None
            },
            None => r is None,
        },
{
    match message {
        Some(m) => {
            let c = chars_of(m.as_str());
            let t = trim(&c);
            if t.len() > 0 { Some(string_of(&t)) } else { None }
        }
        None => None,
    }
}

/// A son as the public API hands it out: hidden sons do not exist there.
pub fn visible_son(son: Option<Son>) -> (r: Option<Son>)
    ensures
        r == (match son {
            Some(s) => if s.is_public { Some(s) } else { None },
            None => None,
        }),
{
    match son {
        Some(s) => if s.is_public { Some(s) } else { None },
        None => None,
    }
}

/// What every admin action checks first: a signed-in admin passes, anyone else
/// is told admin access is required.
pub fn require_admin(user: Option<User>) -> (r: Result<User, String>)
    ensures
        match user {
            Some(u) => if u.is_admin { r == Ok::<User, String>(u) } else { r matches Err(m) && m@ == "admin access required"@ },
            None => r matches Err(m) && m@ == "admin access required"@,
        },
{
    match user {
        Some(u) => {
            if u.is_admin {
                return Ok(u);
            }
        }
        None => {}
    }
    let mut m = String::new();
    push_str(&mut m, "admin access required");
    Err(m)
}

} // verus!
