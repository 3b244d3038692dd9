//! URL and text helpers shared by every page that emits `<Meta>`/`<Link>`/
//! JSON-LD needing an absolute URL or a script-safe string, plus the embed
//! helpers used by both the `/embed/:slug` route and the copy button, so the
//! two can never drift apart.
use vstd::prelude::*;
use crate::text::{slice, find_str, find_char, first_index, find_sub, take_before2, before_first2, contains_char, trim, trimmed, all_digits, digits_in, lead_digits, count_digits, push_chars, push_decimal, decimal, chars_of, owned, push_char, push_str, push_hex_padded, string_of, starts_with, trim_end_char, starts, trim_end, flat_map, lemma_flat_map_step, lemma_flat_map_avoids, lemma_flat_map_append, zero_pad, hex, lemma_hex_chars,
    lemma_flat_map_cons, is_hex_digit, hex_digit_value, prepend, lemma_hex_char_value};

verus! {

/// Default width of the embed iframe, in CSS pixels.
pub const EMBED_DEFAULT_W: u32 = 480;

/// Height of the attribution bar under the embedded image, in CSS pixels.
pub const EMBED_BAR_H: u32 = 44;

/// Whether a URL is already absolute.
pub open spec fn is_absolute(url: Seq<char>) -> bool {
    starts(url, "http://"@) || starts(url, "https://"@)
}

/// `url` made absolute under the site origin, if one is configured and not
/// empty once trailing slashes are dropped. Already-absolute input passes
/// through unchanged.
pub open spec fn spec_absolute(url: Seq<char>, origin: Option<Seq<char>>) -> Seq<char> {
    if is_absolute(url) {
        url
    } else {
        match origin {
            Some(o) => if trim_end(o, '/').len() > 0 { trim_end(o, '/') + url } else { url },
            None => url,
        }
    }
}

/// Turns a path or already-absolute URL into an absolute one under the site
/// origin (`SITE_ORIGIN`, passed in). Link unfurlers reject relative
/// `og:image` and canonical URLs.
pub fn absolute(url: &str, origin: Option<&str>) -> (r: String)
    ensures
        r@ == spec_absolute(url@, match origin { Some(o) => Some(o@), None => None }),
{
    let u = chars_of(url);
    if starts_with(&u, "http://") || starts_with(&u, "https://") {
        return owned(url);
    }
    match origin {
        Some(o) => {
            let oc = chars_of(o);
            let t = trim_end_char(&oc, '/');
            if t.len() > 0 {
                let mut r = string_of(&t);
                push_str(&mut r, url);
                r
            } else {
                owned(url)
            }
        }
        None => owned(url),
    }
}

/// How `json_escape` writes one character.
pub open spec fn json_esc(c: char) -> Seq<char> {
    if c == '"' {
        "\\\""@
    } else if c == '\\' {
        "\\\\"@
    } else if c == '\n' {
        "\\n"@
    } else if c == '\r' {
        "\\r"@
    } else if c == '\t' {
        "\\t"@
    } else if c == '<' {
        "\\u003c"@
    } else if c == '>' {
        "\\u003e"@
    } else if c == '&' {
        "\\u0026"@
    } else if (c as u32) < 0x20 {
        "\\u"@ + zero_pad(hex(c as nat, false), 4)
    } else {
        seq![c]
    }
}

pub open spec fn spec_json_escape(s: Seq<char>) -> Seq<char> {
    flat_map(s, |c: char| json_esc(c))
}

fn push_json_esc(out: &mut String, c: char)
    ensures
        final(out)@ == old(out)@ + json_esc(c),
{
    if c == '"' {
        push_str(out, "\\\"");
    } else if c == '\\' {
        push_str(out, "\\\\");
    } else if c == '\n' {
        push_str(out, "\\n");
    } else if c == '\r' {
        push_str(out, "\\r");
    } else if c == '\t' {
        push_str(out, "\\t");
    } else if c == '<' {
        push_str(out, "\\u003c");
    } else if c == '>' {
        push_str(out, "\\u003e");
    } else if c == '&' {
        push_str(out, "\\u0026");
    } else if (c as u32) < 0x20 {
        push_str(out, "\\u");
        push_hex_padded(out, c as u32 as u64, 4, false);
        proof {
            assert(old(out)@ + "\\u"@ + zero_pad(hex(c as nat, false), 4)
                =~= old(out)@ + ("\\u"@ + zero_pad(hex(c as nat, false), 4)));
        }
    } else {
        push_char(out, c);
    }
}

/// Escapes a string for a JSON string literal that itself sits inside a
/// `<script>` tag: JSON's own escapes, plus `<`, `>` and `&`, so a title
/// containing `</script>` cannot close the tag early.
pub fn json_escape(s: &str) -> (r: String)
    ensures
        r@ == spec_json_escape(s@),
{
    let mut out = String::new();
    for c in it: s.chars()
        invariant
            it.seq() == s@,
            out@ == spec_json_escape(s@.take(it.index() as int)),
    {
        proof { lemma_flat_map_step(s@, it.index() as int, |c: char| json_esc(c)); }
        push_json_esc(&mut out, c);
    }
    proof { assert(s@.take(s@.len() as int) =~= s@); }
    out
}

/// How `attr_escape` writes one character.
pub open spec fn attr_esc(c: char) -> Seq<char> {
    if c == '&' {
        "&amp;"@
    } else if c == '<' {
        "&lt;"@
    } else if c == '>' {
        "&gt;"@
    } else if c == '"' {
        "&quot;"@
    } else {
        seq![c]
    }
}

pub open spec fn spec_attr_escape(s: Seq<char>) -> Seq<char> {
    flat_map(s, |c: char| attr_esc(c))
}

/// Escapes a string for a double-quoted HTML attribute value: exactly the
/// four characters such a value can be broken out of.
pub fn attr_escape(s: &str) -> (r: String)
    ensures
        r@ == spec_attr_escape(s@),
{
    let mut out = String::new();
    for c in it: s.chars()
        invariant
            it.seq() == s@,
            out@ == spec_attr_escape(s@.take(it.index() as int)),
    {
        proof { lemma_flat_map_step(s@, it.index() as int, |c: char| attr_esc(c)); }
        if c == '&' {
            push_str(&mut out, "&amp;");
        } else if c == '<' {
            push_str(&mut out, "&lt;");
        } else if c == '>' {
            push_str(&mut out, "&gt;");
        } else if c == '"' {
            push_str(&mut out, "&quot;");
        } else {
            push_char(&mut out, c);
        }
    }
    proof { assert(s@.take(s@.len() as int) =~= s@); }
    out
}

/// A JSON-escaped string never contains `<`, `>` or an unescaped quote
/// character of its own making: no `</script>` can survive it.
pub proof fn lemma_json_escape_has_no_angle_brackets(s: Seq<char>)
    ensures
        forall|j: int| 0 <= j < spec_json_escape(s).len() ==>
            spec_json_escape(s)[j] != '<' && spec_json_escape(s)[j] != '>',
{
    reveal_strlit("\\\"");
    reveal_strlit("\\\\");
    reveal_strlit("\\n");
    reveal_strlit("\\r");
    reveal_strlit("\\t");
    reveal_strlit("\\u003c");
    reveal_strlit("\\u003e");
    reveal_strlit("\\u0026");
    reveal_strlit("\\u");
    let f = |c: char| json_esc(c);
    let bad = |c: char| c == '<' || c == '>';
    assert forall|c: char, j: int| 0 <= j < f(c).len() implies !bad(#[trigger] f(c)[j]) by {
        if (c as u32) < 0x20 && c != '\n' && c != '\r' && c != '\t' {
            let h = hex(c as nat, false);
            lemma_hex_chars(c as nat, false);
            let z = zero_pad(h, 4);
            assert forall|k: int| 0 <= k < z.len() implies z[k] != '<' && z[k] != '>' by {
                if h.len() < 4 && k < 4 - h.len() {
                } else if h.len() < 4 {
                    assert(z[k] == h[k - (4 - h.len())]);
                }
            }
            assert(f(c) == "\\u"@ + z);
            if j >= 2 {
                assert(f(c)[j] == z[j - 2]);
            }
        }
    }
    lemma_flat_map_avoids(s, f, bad);
}

/// An attribute-escaped string contains no `"`, `<` or `>`: it cannot close
/// the attribute or the tag it sits in.
pub proof fn lemma_attr_escape_cannot_break_out(s: Seq<char>)
    ensures
        forall|j: int| 0 <= j < spec_attr_escape(s).len() ==> {
            &&& spec_attr_escape(s)[j] != '"'
            &&& spec_attr_escape(s)[j] != '<'
            &&& spec_attr_escape(s)[j] != '>'
        },
{
    reveal_strlit("&amp;");
    reveal_strlit("&lt;");
    reveal_strlit("&gt;");
    reveal_strlit("&quot;");
    let f = |c: char| attr_esc(c);
    let bad = |c: char| c == '"' || c == '<' || c == '>';
    lemma_flat_map_avoids(s, f, bad);
}

/// Reading an attribute value back: `&amp;`, `&lt;`, `&gt;` and `&quot;`
/// each become their character again, in one pass from the left; anything
/// else stays as it is.
pub open spec fn attr_unescape(t: Seq<char>) -> Seq<char>
    decreases t.len(),
{
    if t.len() == 0 {
        Seq::empty()
    } else if t.len() >= 5 && t.take(5) == "&amp;"@ {
        seq!['&'] + attr_unescape(t.skip(5))
    } else if t.len() >= 4 && t.take(4) == "&lt;"@ {
        seq!['<'] + attr_unescape(t.skip(4))
    } else if t.len() >= 4 && t.take(4) == "&gt;"@ {
        seq!['>'] + attr_unescape(t.skip(4))
    } else if t.len() >= 6 && t.take(6) == "&quot;"@ {
        seq!['"'] + attr_unescape(t.skip(6))
    } else {
        seq![t[0]] + attr_unescape(t.drop_first())
    }
}

/// Attribute escaping loses nothing: unescaping gives the text back.
pub proof fn lemma_attr_escape_round_trip(s: Seq<char>)
    ensures
        attr_unescape(spec_attr_escape(s)) == s,
    decreases s.len(),
{
    reveal_strlit("&amp;");
    reveal_strlit("&lt;");
    reveal_strlit("&gt;");
    reveal_strlit("&quot;");
    if s.len() == 0 {
        assert(attr_unescape(Seq::<char>::empty()) == Seq::<char>::empty());
    } else {
        let c = s[0];
        let rest = s.drop_first();
        assert(s =~= seq![c] + rest);
        lemma_flat_map_cons(c, rest, |c: char| attr_esc(c));
        lemma_attr_escape_round_trip(rest);
        let e = attr_esc(c);
        let t = e + spec_attr_escape(rest);
        assert(spec_attr_escape(s) == t);
        assert(t.take(e.len() as int) =~= e);
        assert(t.skip(e.len() as int) =~= spec_attr_escape(rest));
        assert("&amp;"@.len() == 5 && "&lt;"@.len() == 4 && "&gt;"@.len() == 4 && "&quot;"@.len() == 6);
        if c == '&' {
            assert(t.take(5) =~= "&amp;"@);
            assert(attr_unescape(t) == seq![c] + attr_unescape(t.skip(5)));
        } else if c == '<' {
            assert(t[1] == 'l');
            if t.len() >= 5 { assert(t.take(5)[1] == 'l'); }
            assert(t.take(4) =~= "&lt;"@);
            assert(attr_unescape(t) == seq![c] + attr_unescape(t.skip(4)));
        } else if c == '>' {
            assert(t[1] == 'g');
            if t.len() >= 5 { assert(t.take(5)[1] == 'g'); }
            assert(t.take(4) =~= "&gt;"@);
            assert(attr_unescape(t) == seq![c] + attr_unescape(t.skip(4)));
        } else if c == '"' {
            assert(t.take(5)[1] == 'q');
            assert(t.take(4)[1] == 'q');
            assert(t.take(6) =~= "&quot;"@);
            assert(attr_unescape(t) == seq![c] + attr_unescape(t.skip(6)));
        } else {
            assert(e =~= seq![c]);
            assert(t[0] == c);
            assert(t.drop_first() =~= spec_attr_escape(rest));
            if t.len() >= 4 { assert(t.take(4)[0] == c); }
            if t.len() >= 5 { assert(t.take(5)[0] == c); }
            if t.len() >= 6 { assert(t.take(6)[0] == c); }
            assert(attr_unescape(t) == seq![c] + attr_unescape(t.drop_first()));
        }
        assert(seq![c] + rest =~= s);
    }
}

/// A JSON-escaped string holds no `&` and no control character below
/// U+0020 either: every one of those is written as an escape.
pub proof fn lemma_json_escape_has_no_amp_or_controls(s: Seq<char>)
    ensures
        forall|j: int| 0 <= j < spec_json_escape(s).len() ==>
            spec_json_escape(s)[j] != '&' && (spec_json_escape(s)[j] as u32) >= 0x20,
{
    reveal_strlit("\\\"");
    reveal_strlit("\\\\");
    reveal_strlit("\\n");
    reveal_strlit("\\r");
    reveal_strlit("\\t");
    reveal_strlit("\\u003c");
    reveal_strlit("\\u003e");
    reveal_strlit("\\u0026");
    reveal_strlit("\\u");
    let f = |c: char| json_esc(c);
    let bad = |c: char| c == '&' || (c as u32) < 0x20;
    assert forall|c: char, j: int| 0 <= j < f(c).len() implies !bad(#[trigger] f(c)[j]) by {
        if (c as u32) < 0x20 && c != '\n' && c != '\r' && c != '\t' {
            let h = hex(c as nat, false);
            lemma_hex_chars(c as nat, false);
            let z = zero_pad(h, 4);
            assert forall|k: int| 0 <= k < z.len() implies !bad(z[k]) by {
                if h.len() < 4 && k < 4 - h.len() {
                } else if h.len() < 4 {
                    assert(z[k] == h[k - (4 - h.len())]);
                }
            }
            assert(f(c) == "\\u"@ + z);
            if j >= 2 {
                assert(f(c)[j] == z[j - 2]);
            }
        }
    }
    lemma_flat_map_avoids(s, f, bad);
}

/// What a two-character JSON escape `\x` stands for, where `x` is one of
/// JSON's short escapes.
pub open spec fn json_short_escape(x: char) -> Option<char> {
    if x == '"' {
        Some('"')
    } else if x == '\\' {
        Some('\\')
    } else if x == '/' {
        Some('/')
    } else if x == 'b' {
        Some('\x08')
    } else if x == 'f' {
        Some('\x0c')
    } else if x == 'n' {
        Some('\n')
    } else if x == 'r' {
        Some('\r')
    } else if x == 't' {
        Some('\t')
    } else {
        None
    }
}

/// The value of the four hexadecimal digits at the front of `h`.
pub open spec fn hex4_value(h: Seq<char>) -> nat {
    4096 * hex_digit_value(h[0]) + 256 * hex_digit_value(h[1]) + 16 * hex_digit_value(h[2])
        + hex_digit_value(h[3])
}

/// Reading a JSON string literal as a JSON parser does: an opening `"`, then
/// characters up to the closing `"`, each escape becoming the character it
/// stands for (`\uXXXX` by its code point). `None` where JSON refuses the
/// text: no opening or closing quote, text after the closing quote, a raw
/// control character, or an unknown escape. A `\u` escape of a UTF-16
/// surrogate, which JSON reads only in pairs, is refused here too.
pub open spec fn json_string_literal(t: Seq<char>) -> Option<Seq<char>> {
    if t.len() > 0 && t[0] == '"' { json_string_rest(t.drop_first()) } else { None }
}

/// The rest of a JSON string literal after its opening quote.
pub open spec fn json_string_rest(t: Seq<char>) -> Option<Seq<char>>
    decreases t.len(),
{
    if t.len() == 0 {
        None
    } else if t[0] == '"' {
        if t.len() == 1 { Some(Seq::empty()) } else { None }
    } else if t[0] == '\\' {
        if t.len() >= 2 && json_short_escape(t[1]) is Some {
            prepend(json_short_escape(t[1])->0, json_string_rest(t.skip(2)))
        } else if t.len() >= 6 && t[1] == 'u' && is_hex_digit(t[2]) && is_hex_digit(t[3])
            && is_hex_digit(t[4]) && is_hex_digit(t[5])
            && !(0xd800 <= hex4_value(t.skip(2)) && hex4_value(t.skip(2)) <= 0xdfff) {
            prepend(hex4_value(t.skip(2)) as char, json_string_rest(t.skip(6)))
        } else {
            None
        }
    } else if (t[0] as u32) < 0x20 {
        None
    } else {
        prepend(t[0], json_string_rest(t.drop_first()))
    }
}

/// The escape of one character reads back as that character.
proof fn lemma_json_esc_reads_back(c: char, rest: Seq<char>)
    ensures
        json_string_rest(json_esc(c) + rest) == prepend(c, json_string_rest(rest)),
{
    reveal_strlit("\\\"");
    reveal_strlit("\\\\");
    reveal_strlit("\\n");
    reveal_strlit("\\r");
    reveal_strlit("\\t");
    reveal_strlit("\\u003c");
    reveal_strlit("\\u003e");
    reveal_strlit("\\u0026");
    reveal_strlit("\\u");
    let e = json_esc(c);
    let t = e + rest;
    assert(t.take(e.len() as int) =~= e);
    if c == '"' || c == '\\' || c == '\n' || c == '\r' || c == '\t' {
        assert(e.len() == 2);
        assert(t[0] == e[0] && t[1] == e[1]);
        assert(t.skip(2) =~= rest);
    } else if c == '<' || c == '>' || c == '&' || (c as u32) < 0x20 {
        let v: nat = c as nat;
        let h = hex(v, false);
        if (c as u32) < 0x20 && c != '<' && c != '>' && c != '&' {
            if v < 16 {
                assert(h == seq![crate::text::hex_char(v, false)]);
                lemma_hex_char_value(v, false);
                lemma_hex_char_value(0, false);
            } else {
                assert(h == hex(v / 16, false).push(crate::text::hex_char(v % 16, false)));
                assert(hex(1, false) == seq![crate::text::hex_char(1, false)]);
                lemma_hex_char_value(1, false);
                lemma_hex_char_value(v % 16, false);
                lemma_hex_char_value(0, false);
            }
            let z = zero_pad(h, 4);
            assert(e == "\\u"@ + z);
            assert(z.len() == 4);
        }
        assert(e.len() == 6);
        assert(t[0] == '\\' && t[1] == 'u');
        assert(t.skip(2)[0] == e[2] && t.skip(2)[1] == e[3] && t.skip(2)[2] == e[4] && t.skip(2)[3] == e[5]);
        assert(hex4_value(t.skip(2)) == v);
        assert((v as char) == c);
        assert(t.skip(6) =~= rest);
    } else {
        assert(e =~= seq![c]);
        assert(t[0] == c);
        assert(t.drop_first() =~= rest);
    }
}

/// JSON escaping loses nothing: the escaped text in double quotes is a
/// JSON string literal, and a JSON parser reads it back as the original text.
pub proof fn lemma_json_escape_round_trip(s: Seq<char>)
    ensures
        json_string_literal(seq!['"'] + spec_json_escape(s) + seq!['"']) == Some(s),
{
    lemma_json_escape_body(s);
    assert((seq!['"'] + spec_json_escape(s) + seq!['"']).drop_first() =~= spec_json_escape(s) + seq!['"']);
}

proof fn lemma_json_escape_body(s: Seq<char>)
    ensures
        json_string_rest(spec_json_escape(s) + seq!['"']) == Some(s),
    decreases s.len(),
{
    if s.len() == 0 {
        assert(flat_map(s, |c: char| json_esc(c)) == Seq::<char>::empty());
        assert(spec_json_escape(s) + seq!['"'] =~= seq!['"']);
    } else {
        let c = s[0];
        let rest = s.drop_first();
        assert(s =~= seq![c] + rest);
        lemma_flat_map_cons(c, rest, |c: char| json_esc(c));
        lemma_json_escape_body(rest);
        assert(spec_json_escape(s) + seq!['"'] =~= json_esc(c) + (spec_json_escape(rest) + seq!['"']));
        lemma_json_esc_reads_back(c, spec_json_escape(rest) + seq!['"']);
        assert(seq![c] + rest =~= s);
    }
}

/// The framable card's path for a son.
pub fn embed_path(slug: &str) -> (r: String)
    ensures
        r@ == "/embed/"@ + slug@,
{
    let mut r = owned("/embed/");
    push_str(&mut r, slug);
    r
}

/// A page URL split into its origin (empty for a relative URL) and path;
/// `None` for an absolute URL with no path at all.
pub open spec fn split_page_url(u: Seq<char>) -> Option<(Seq<char>, Seq<char>)> {
    match find_sub(u, "://"@) {
        Some(i) => {
            let rest = u.skip(i + "://"@.len());
            match first_index(rest, '/') {
                Some(j) => Some((u.take(i) + "://"@ + rest.take(j), "/"@ + rest.skip(j + 1))),
                None => None,
            }
        },
        None => Some((Seq::empty(), u)),
    }
}

/// The son page path, less any query, fragment and trailing slashes.
pub open spec fn clean_path(path: Seq<char>) -> Seq<char> {
    trim_end(before_first2(path, '?', '#'), '/')
}

/// The embed URL for a son page URL, keeping its origin; `None` for
/// anything that is not a son page.
pub open spec fn spec_embed_url(u: Seq<char>) -> Option<Seq<char>> {
    match split_page_url(u) {
        Some((origin, path)) => {
            let p = clean_path(path);
            if starts(p, "/son/"@) {
                let slug = p.skip("/son/"@.len() as int);
                if slug.len() == 0 || slug.contains('/') {
                    None
                } else {
                    Some(origin + "/embed/"@ + slug)
                }
            } else {
                None
            }
        },
        None => None,
    }
}

/// Rewrites the `/son/<x>` path of a son page URL into `/embed/<x>`,
/// keeping whatever origin the caller had. Only ever parses URLs this site
/// produced.
pub fn embed_url_from_page_url(page_url: &str) -> (r: Option<String>)
    ensures
        match r {
            Some(v) => spec_embed_url(page_url@) == Some(v@),
            None => spec_embed_url(page_url@) is None,
        },
{
    let u = chars_of(page_url);
    proof { reveal_strlit("://"); assert("://"@.len() == 3); }
    let (origin, path): (Vec<char>, Vec<char>) = match find_str(&u, "://") {
        Some(i) => {
            assert(i + 3 <= u.len());
            let rest = slice(&u, i + 3, u.len());
            proof { assert(rest@ == u@.skip(i + "://"@.len())); }
            match find_char(&rest, '/') {
                Some(j) => {
                    let mut o = slice(&u, 0, i);
                    o.push(':');
                    o.push('/');
                    o.push('/');
                    let host = slice(&rest, 0, j);
                    let mut o2 = o;
                    let mut k: usize = 0;
                    let ghost o_start = o2@;
                    while k < host.len()
                        invariant
                            k <= host.len(),
                            o2@ == o_start + host@.take(k as int),
                        decreases host.len() - k,
                    {
                        o2.push(host[k]);
                        proof { assert(host@.take(k as int + 1) == host@.take(k as int).push(host@[k as int])); }
                        k = k + 1;
                    }
                    let mut p: Vec<char> = Vec::new();
                    p.push('/');
                    let after = slice(&rest, j + 1, rest.len());
                    let mut k2: usize = 0;
                    while k2 < after.len()
                        invariant
                            k2 <= after.len(),
                            p@ == seq!['/'] + after@.take(k2 as int),
                        decreases after.len() - k2,
                    {
                        p.push(after[k2]);
                        proof { assert(after@.take(k2 as int + 1) == after@.take(k2 as int).push(after@[k2 as int])); }
                        k2 = k2 + 1;
                    }
                    proof {
                        reveal_strlit("/");
                        assert(host@.take(host@.len() as int) =~= host@);
                        assert(after@.take(after@.len() as int) =~= after@);
                        assert(o_start =~= u@.take(i as int) + "://"@);
                        assert(o2@ =~= u@.take(i as int) + "://"@ + rest@.take(j as int));
                        assert(p@ =~= "/"@ + rest@.skip(j + 1));
                    }
                    (o2, p)
                },
                None => { return None; },
            }
        },
        None => (Vec::new(), u),
    };
    let before = take_before2(&path, '?', '#');
    let p = trim_end_char(&before, '/');
    proof { reveal_strlit("/son/"); }
    if !starts_with(&p, "/son/") {
        return None;
    }
    let slug = slice(&p, 5, p.len());
    if slug.len() == 0 || contains_char(&slug, '/') {
        return None;
    }
    let mut r = string_of(&origin);
    push_str(&mut r, "/embed/");
    push_chars(&mut r, &slug);
    proof {
        assert(slug@ == p@.skip("/son/"@.len() as int));
    }
    Some(r)
}

/// The iframe markup for an embed at an explicit size.
pub open spec fn spec_embed_iframe(url: Seq<char>, title: Seq<char>, width: u32, height: u32) -> Seq<char> {
    "<iframe src=\""@ + spec_attr_escape(url) + "\" title=\""@ + spec_attr_escape(title)
        + " \u{2014} son collection\" width=\""@ + decimal(width as nat) + "\" height=\""@
        + decimal(height as nat) + "\" style=\"border:0;max-width:100%\" loading=\"lazy\"></iframe>"@
}

/// The iframe markup for a son at an explicit size, for an oEmbed consumer
/// that asked for one. No `frameborder`; shrinks inside a narrower column;
/// lazy-loaded.
pub fn embed_iframe(embed_url: &str, title: &str, width: u32, height: u32) -> (r: String)
    ensures
        r@ == spec_embed_iframe(embed_url@, title@, width, height),
{
    let mut r = owned("<iframe src=\"");
    let src = attr_escape(embed_url);
    push_str(&mut r, src.as_str());
    push_str(&mut r, "\" title=\"");
    let t = attr_escape(title);
    push_str(&mut r, t.as_str());
    push_str(&mut r, " \u{2014} son collection\" width=\"");
    push_decimal(&mut r, width as u64);
    push_str(&mut r, "\" height=\"");
    push_decimal(&mut r, height as u64);
    push_str(&mut r, "\" style=\"border:0;max-width:100%\" loading=\"lazy\"></iframe>");
    r
}

/// The iframe markup for a son at the default size: the one place this
/// markup exists for both the copy button and `/oembed`.
pub fn embed_snippet(embed_url: &str, title: &str) -> (r: String)
    ensures
        r@ == spec_embed_iframe(embed_url@, title@, EMBED_DEFAULT_W, (EMBED_DEFAULT_W + EMBED_BAR_H) as u32),
{
    embed_iframe(embed_url, title, EMBED_DEFAULT_W, EMBED_DEFAULT_W + EMBED_BAR_H)
}

/// The trailing `[.fraction][zone]` of a timestamp reduced to a bare zone:
/// fractional seconds dropped, a missing zone read as UTC.
pub open spec fn spec_zone(rest: Seq<char>) -> Option<Seq<char>> {
    let frac_ok = !(rest.len() > 0 && rest[0] == '.') || lead_digits(rest.skip(1)) > 0;
    let r = if rest.len() > 0 && rest[0] == '.' {
        rest.skip(1).skip(lead_digits(rest.skip(1)) as int)
    } else {
        rest
    };
    if !frac_ok {
        None
    } else if r.len() == 0 || r == seq!['Z'] || r == seq!['z'] {
        Some(seq!['Z'])
    } else if r.len() == 6 && (r[0] == '+' || r[0] == '-') && all_digits(r.subrange(1, 3)) && r[3] == ':'
        && all_digits(r.subrange(4, 6)) {
        Some(r)
    } else {
        None
    }
}

/// `YYYY-MM-DD` at the start of `s`.
pub open spec fn has_date(s: Seq<char>) -> bool {
    s.len() >= 10 && all_digits(s.take(4)) && s[4] == '-' && all_digits(s.subrange(5, 7)) && s[7] == '-'
        && all_digits(s.subrange(8, 10))
}

/// `HH:MM:SS` at characters 11..19 of `s`.
pub open spec fn has_time(s: Seq<char>) -> bool {
    s.len() >= 19 && all_digits(s.subrange(11, 13)) && s[13] == ':' && all_digits(s.subrange(14, 16))
        && s[16] == ':' && all_digits(s.subrange(17, 19))
}

/// A stored timestamp in the W3C datetime subset `<lastmod>` accepts, or
/// `None` when it cannot be normalised.
pub open spec fn spec_w3c_lastmod(raw: Seq<char>) -> Option<Seq<char>> {
    let s = trimmed(raw);
    if !has_date(s) {
        None
    } else if s.len() == 10 {
        Some(s)
    } else if s[10] != 'T' && s[10] != ' ' {
        None
    } else if !has_time(s) {
        None
    } else {
        match spec_zone(s.skip(19)) {
            Some(z) => Some(s.take(10) + seq!['T'] + s.subrange(11, 19) + z),
            None => None,
        }
    }
}

proof fn lemma_trimmed_when_ends_are_not_white(s: Seq<char>)
    requires
        s.len() > 0,
        !crate::text::is_white(s[0]),
        !crate::text::is_white(s.last()),
    ensures
        trimmed(s) == s,
{
    crate::text::lemma_lead_white_is(s, 0);
    assert(s.skip(0) =~= s);
    crate::text::lemma_trail_white_is(s, 0);
    assert(s.take(s.len() as int) =~= s);
}

/// A normalised `<lastmod>` value is already normal: normalising it again
/// gives it back unchanged.
pub proof fn lemma_w3c_lastmod_is_a_fixed_point(raw: Seq<char>)
    requires
        spec_w3c_lastmod(raw) is Some,
    ensures
        spec_w3c_lastmod(spec_w3c_lastmod(raw).unwrap()) == spec_w3c_lastmod(raw),
{
    let s = trimmed(raw);
    let d = spec_w3c_lastmod(raw).unwrap();
    assert(crate::text::is_digit(s.take(4)[0]));
    assert(s.take(4)[0] == s[0]);
    if s.len() == 10 {
        assert(d == s);
        assert(crate::text::is_digit(s.subrange(8, 10)[1]));
        assert(s.subrange(8, 10)[1] == s.last());
        lemma_trimmed_when_ends_are_not_white(d);
    } else {
        let z = spec_zone(s.skip(19)).unwrap();
        let head = s.take(10) + seq!['T'] + s.subrange(11, 19);
        assert(d == head + z);
        assert(head.len() == 19);
        let zr = s.skip(19);
        // The zone is `Z` or `+hh:mm` / `-hh:mm`.
        assert(z == seq!['Z'] || (z.len() == 6 && (z[0] == '+' || z[0] == '-') && all_digits(z.subrange(1, 3))
            && z[3] == ':' && all_digits(z.subrange(4, 6))));
        assert(d[0] == s[0]);
        if z.len() == 6 {
            assert(crate::text::is_digit(z.subrange(4, 6)[1]));
            assert(z.subrange(4, 6)[1] == z[5]);
        }
        assert(d.last() == z.last());
        lemma_trimmed_when_ends_are_not_white(d);
        assert(d.take(10) =~= s.take(10));
        assert(d.take(4) =~= s.take(4));
        assert(d.subrange(5, 7) =~= s.subrange(5, 7));
        assert(d.subrange(8, 10) =~= s.subrange(8, 10));
        assert(d.subrange(11, 13) =~= s.subrange(11, 13));
        assert(d.subrange(14, 16) =~= s.subrange(14, 16));
        assert(d.subrange(17, 19) =~= s.subrange(17, 19));
        assert(d.subrange(11, 19) =~= s.subrange(11, 19));
        assert(d[4] == s[4] && d[7] == s[7] && d[13] == s[13] && d[16] == s[16]);
        assert(has_date(d));
        assert(d[10] == 'T');
        assert(has_time(d));
        assert(d.skip(19) =~= z);
        if z.len() == 6 {
            assert(z.subrange(1, 3) =~= z.subrange(1, 3));
        }
        assert(spec_zone(z) == Some(z));
        assert(d.take(10) + seq!['T'] + d.subrange(11, 19) + z =~= d);
    }
}

fn normalise_zone(s: &[char], lo: usize) -> (r: Option<Vec<char>>)
    requires
        lo <= s.len(),
    ensures
        match r {
            Some(z) => spec_zone(s@.skip(lo as int)) == Some(z@),
            None => spec_zone(s@.skip(lo as int)) is None,
        },
{
    let ghost rest0 = s@.skip(lo as int);
    let mut start = lo;
    if lo < s.len() && s[lo] == '.' {
        let n = count_digits(s, lo + 1);
        proof { assert(s@.skip(lo as int + 1) =~= rest0.skip(1)); }
        if n == 0 {
            return None;
        }
        start = lo + 1 + n;
        proof { assert(s@.skip(start as int) =~= rest0.skip(1).skip(n as int)); }
    } else {
        proof {
            if lo < s.len() { assert(rest0[0] == s@[lo as int]); }
        }
    }
    let r = slice(s, start, s.len());
    proof { assert(r@ =~= s@.skip(start as int)); }
    if r.len() == 0 || (r.len() == 1 && (r[0] == 'Z' || r[0] == 'z')) {
        let mut z: Vec<char> = Vec::new();
        z.push('Z');
        proof {
            assert(z@ =~= seq!['Z']);
            if r.len() == 1 {
                if r[0] == 'Z' { assert(r@ =~= seq!['Z']); } else { assert(r@ =~= seq!['z']); }
            }
        }
        return Some(z);
    }
    proof {
        if r@ == seq!['Z'] || r@ == seq!['z'] { assert(r@.len() == 1 && r@[0] == r@[0]); }
    }
    if r.len() == 6 && (r[0] == '+' || r[0] == '-') && digits_in(&r, 1, 3) && r[3] == ':' && digits_in(&r, 4, 6) {
        Some(r)
    } else {
        None
    }
}

/// Normalises a stored timestamp for `<lastmod>`: RFC 3339 with a zone
/// (fractional seconds dropped), the legacy `YYYY-MM-DD HH:MM:SS` form (read
/// as UTC), or a bare date. Anything else is `None`, and the caller must
/// then omit the tag: an invalid `<lastmod>` is worse than none.
pub fn w3c_lastmod(raw: &str) -> (r: Option<String>)
    ensures
        match r {
            Some(v) => spec_w3c_lastmod(raw@) == Some(v@),
            None => spec_w3c_lastmod(raw@) is None,
        },
{
    let rc = chars_of(raw);
    let s = trim(&rc);
    if !(s.len() >= 10 && digits_in(&s, 0, 4) && s[4] == '-' && digits_in(&s, 5, 7) && s[7] == '-') {
        proof { assert(s@.subrange(0, 4) =~= s@.take(4)); }
        return None;
    }
    if !digits_in(&s, 8, 10) {
        return None;
    }
    proof { assert(s@.subrange(0, 4) =~= s@.take(4)); }
    if s.len() == 10 {
        return Some(string_of(&s));
    }
    if s[10] != 'T' && s[10] != ' ' {
        return None;
    }
    if !(s.len() >= 19 && digits_in(&s, 11, 13) && s[13] == ':' && digits_in(&s, 14, 16) && s[16] == ':'
        && digits_in(&s, 17, 19)) {
        return None;
    }
    match normalise_zone(&s, 19) {
        Some(z) => {
            let mut out = string_of(&slice(&s, 0, 10));
            push_char(&mut out, 'T');
            push_chars(&mut out, &slice(&s, 11, 19));
            push_chars(&mut out, &z);
            proof { assert(s@.subrange(0, 10) =~= s@.take(10)); }
            Some(out)
        },
        None => None,
    }
}

/// `schema.org/WebSite` JSON-LD for the site, with the `SearchAction` that
/// makes a site-search box eligible under the result.
pub open spec fn spec_site_json_ld(origin: Seq<char>) -> Seq<char> {
    let o = spec_json_escape(trim_end(origin, '/'));
    "{\"@context\":\"https://schema.org\",\"@type\":\"WebSite\",\"name\":\"son collection\",\"url\":\""@
        + o + "/\",\"potentialAction\":{\"@type\":\"SearchAction\",\"target\":{\"@type\":\"EntryPoint\",\"urlTemplate\":\""@
        + o + "/search?q={search_term_string}\"},\"query-input\":\"required name=search_term_string\"}}"@
}

pub fn site_json_ld(origin: &str) -> (r: String)
    ensures
        r@ == spec_site_json_ld(origin@),
{
    let oc = chars_of(origin);
    let t = string_of(&trim_end_char(&oc, '/'));
    let o = json_escape(t.as_str());
    let mut r = owned("{\"@context\":\"https://schema.org\",\"@type\":\"WebSite\",\"name\":\"son collection\",\"url\":\"");
    push_str(&mut r, o.as_str());
    push_str(&mut r, "/\",\"potentialAction\":{\"@type\":\"SearchAction\",\"target\":{\"@type\":\"EntryPoint\",\"urlTemplate\":\"");
    push_str(&mut r, o.as_str());
    push_str(&mut r, "/search?q={search_term_string}\"},\"query-input\":\"required name=search_term_string\"}}");
    r
}

/// `Home > {title}` breadcrumb JSON-LD for a son page. `home` is the site's
/// absolute root URL; `page_url` is the canonical the page emits.
pub open spec fn spec_breadcrumb_json_ld(title: Seq<char>, page_url: Seq<char>, home: Seq<char>) -> Seq<char> {
    "{\"@context\":\"https://schema.org\",\"@type\":\"BreadcrumbList\",\"itemListElement\":[{\"@type\":\"ListItem\",\"position\":1,\"name\":\"son collection\",\"item\":\""@
        + spec_json_escape(home)
        + "\"},{\"@type\":\"ListItem\",\"position\":2,\"name\":\""@ + spec_json_escape(title)
        + "\",\"item\":\""@ + spec_json_escape(page_url) + "\"}]}"@
}

/// Breadcrumb JSON-LD; the home URL is `/` made absolute under `origin`.
pub fn breadcrumb_json_ld(title: &str, page_url: &str, origin: Option<&str>) -> (r: String)
    ensures
        r@ == spec_breadcrumb_json_ld(title@, page_url@,
            spec_absolute("/"@, match origin { Some(o) => Some(o@), None => None })),
{
    let home = absolute("/", origin);
    let h = json_escape(home.as_str());
    let p = json_escape(page_url);
    let t = json_escape(title);
    let mut r = owned("{\"@context\":\"https://schema.org\",\"@type\":\"BreadcrumbList\",\"itemListElement\":[{\"@type\":\"ListItem\",\"position\":1,\"name\":\"son collection\",\"item\":\"");
    push_str(&mut r, h.as_str());
    push_str(&mut r, "\"},{\"@type\":\"ListItem\",\"position\":2,\"name\":\"");
    push_str(&mut r, t.as_str());
    push_str(&mut r, "\",\"item\":\"");
    push_str(&mut r, p.as_str());
    push_str(&mut r, "\"}]}");
    r
}

} // verus!
