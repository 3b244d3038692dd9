//! The rule that every anchor pointing at a server route opts out of the
//! client-side router, and the source-text reading that checks it: the
//! server's route list, anchor tags, their `href` literals and whether they
//! carry `download`.
use vstd::prelude::*;
use vstd::string::StringSliceAdditionalSpecFns;
use crate::text::{chars_of, string_of, slice, find_char, find_str, first_index, find_sub, lemma_find_sub, starts,
    starts_with, trim_end, trim_end_char, is_white, char_is_white, equals, lemma_first_index};

verus! {

// ---------------------------------------------------------------------------
// Splitting

/// `s` split at every `c`, empty pieces included, as `str::split(c)`.
pub open spec fn split_on(s: Seq<char>, c: char) -> Seq<Seq<char>>
    decreases s.len(),
{
    match first_index(s, c) {
        Some(i) => {
            proof { lemma_first_index(s, c); }
            seq![s.take(i)] + split_on(s.skip(i + 1), c)
        },
        None => seq![s],
    }
}

fn split_chars(s: &[char], c: char) -> (r: Vec<Vec<char>>)
    ensures
        r@.len() == split_on(s@, c).len(),
        forall|k: int| 0 <= k < r@.len() ==> (#[trigger] r@[k])@ == split_on(s@, c)[k],
{
    let mut out: Vec<Vec<char>> = Vec::new();
    let mut lo: usize = 0;
    let ghost done: Seq<Seq<char>> = Seq::empty();
    proof { assert(s@.skip(0) =~= s@); }
    loop
        invariant_except_break
            lo <= s.len(),
            done + split_on(s@.skip(lo as int), c) == split_on(s@, c),
            out@.len() == done.len(),
            forall|k: int| 0 <= k < out@.len() ==> (#[trigger] out@[k])@ == done[k],
        ensures
            done == split_on(s@, c),
            out@.len() == done.len(),
            forall|k: int| 0 <= k < out@.len() ==> (#[trigger] out@[k])@ == done[k],
        decreases s.len() - lo,
    {
        let rest = slice(s, lo, s.len());
        proof { assert(rest@ =~= s@.skip(lo as int)); }
        match find_char(&rest, c) {
            Some(i) => {
                let part = slice(&rest, 0, i);
                proof {
                    assert(part@ =~= rest@.take(i as int));
                    assert(rest@.skip(i as int + 1) =~= s@.skip(lo + i + 1));
                    assert(done.push(part@) + split_on(rest@.skip(i as int + 1), c) =~= done + split_on(rest@, c));
                    done = done.push(part@);
                }
                out.push(part);
                lo = lo + i + 1;
            }
            None => {
                proof {
                    assert(done.push(rest@) =~= done + split_on(rest@, c));
                    done = done.push(rest@);
                }
                out.push(rest);
                break;
            }
        }
    }
    out
}

// ---------------------------------------------------------------------------
// Routes

/// Whether a route pattern serves an `href` literal: compared segment by
/// segment (not by prefix), ignoring the href's query and any trailing
/// slash, with a `{...}` segment on either side matching anything.
pub open spec fn spec_route_serves(route: Seq<char>, href: Seq<char>) -> bool {
    let hpath = match first_index(href, '?') {
        Some(i) => href.take(i),
        None => href,
    };
    let r = split_on(trim_end(route, '/'), '/');
    let h = split_on(trim_end(hpath, '/'), '/');
    r.len() == h.len()
        && forall|i: int| 0 <= i < r.len() ==>
            (starts(#[trigger] r[i], "{"@) || starts(h[i], "{"@) || r[i] == h[i])
}

pub fn route_serves(route: &str, href: &str) -> (b: bool)
    ensures
        b == spec_route_serves(route@, href@),
{
    let hc = chars_of(href);
    let hpath = match find_char(&hc, '?') {
        Some(i) => {
            let p = slice(&hc, 0, i);
            proof { assert(p@ =~= hc@.take(i as int)); }
            p
        }
        None => hc,
    };
    proof {
        assert(hpath@ == (match first_index(href@, '?') { Some(i) => href@.take(i), None => href@ }));
    }
    let rc = chars_of(route);
    let r = split_chars(&trim_end_char(&rc, '/'), '/');
    let h = split_chars(&trim_end_char(&hpath, '/'), '/');
    if r.len() != h.len() {
        return false;
    }
    let ghost rs = split_on(trim_end(route@, '/'), '/');
    let ghost hs = split_on(trim_end(hpath@, '/'), '/');
    let mut i: usize = 0;
    while i < r.len()
        invariant
            i <= r.len(),
            hpath@ == (match first_index(href@, '?') { Some(i) => href@.take(i), None => href@ }),
            rs == split_on(trim_end(route@, '/'), '/'),
            hs == split_on(trim_end(hpath@, '/'), '/'),
            r@.len() == h@.len(),
            r@.len() == rs.len(),
            h@.len() == hs.len(),
            forall|k: int| 0 <= k < r@.len() ==> (#[trigger] r@[k])@ == rs[k],
            forall|k: int| 0 <= k < h@.len() ==> (#[trigger] h@[k])@ == hs[k],
            forall|k: int| 0 <= k < i ==> (starts(#[trigger] rs[k], "{"@) || starts(hs[k], "{"@) || rs[k] == hs[k]),
        decreases r.len() - i,
    {
        let rseg = &r[i];
        let hseg = &h[i];
        let a = starts_with(rseg, "{");
        let b = starts_with(hseg, "{");
        let hs_str = string_of(hseg);
        let same = equals(rseg, hs_str.as_str());
        proof { assert(r@[i as int]@ == rs[i as int] && h@[i as int]@ == hs[i as int]); }
        if !(a || b || same) {
            proof {
                assert(!(starts(rs[i as int], "{"@) || starts(hs[i as int], "{"@) || rs[i as int] == hs[i as int]));
                assert(!spec_route_serves(route@, href@));
            }
            return false;
        }
        i = i + 1;
    }
    true
}

/// The paths registered with `.route(` in the server's source, in order:
/// the first string literal of each call, when it is a path.
pub open spec fn spec_axum_routes(s: Seq<char>) -> Seq<Seq<char>>
    decreases s.len(),
{
    match find_sub(s, ".route("@) {
        None => Seq::empty(),
        Some(i) => {
            proof { lemma_find_sub(s, ".route("@); reveal_strlit(".route("); }
            let rest = s.skip(i + 7);
            match first_index(rest, '"') {
                None => Seq::empty(),
                Some(st) => match first_index(rest.skip(st + 1), '"') {
                    None => Seq::empty(),
                    Some(l) => {
                        let p = rest.subrange(st + 1, st + 1 + l);
                        (if starts(p, "/"@) { seq![p] } else { Seq::empty() }) + spec_axum_routes(rest)
                    },
                },
            }
        },
    }
}

pub fn axum_routes(main_rs: &str) -> (r: Vec<String>)
    ensures
        r@.len() == spec_axum_routes(main_rs@).len(),
        forall|k: int| 0 <= k < r@.len() ==> (#[trigger] r@[k])@ == spec_axum_routes(main_rs@)[k],
{
    let s = chars_of(main_rs);
    let mut out: Vec<String> = Vec::new();
    let mut rest = s;
    let ghost done: Seq<Seq<char>> = Seq::empty();
    proof { reveal_strlit(".route("); assert(".route("@.len() == 7); }
    loop
        invariant_except_break
            ".route("@.len() == 7,
            done + spec_axum_routes(rest@) == spec_axum_routes(main_rs@),
            out@.len() == done.len(),
            forall|k: int| 0 <= k < out@.len() ==> (#[trigger] out@[k])@ == done[k],
        ensures
            done == spec_axum_routes(main_rs@),
            out@.len() == done.len(),
            forall|k: int| 0 <= k < out@.len() ==> (#[trigger] out@[k])@ == done[k],
        decreases rest@.len(),
    {
        proof { lemma_find_sub(rest@, ".route("@); }
        let found = find_str(&rest, ".route(");
        let i = match found {
            Some(i) => i,
            None => {
                proof { assert(done + Seq::<Seq<char>>::empty() =~= done); }
                break;
            }
        };
        assert(i + 7 <= rest.len());
        let after = slice(&rest, i + 7, rest.len());
        proof { assert(after@ =~= rest@.skip(i + 7)); }
        let fst = find_char(&after, '"');
        if fst.is_none() {
            proof { assert(done + Seq::<Seq<char>>::empty() =~= done); }
            break;
        }
        let st = fst.unwrap();
        let tail = slice(&after, st + 1, after.len());
        proof { assert(tail@ =~= after@.skip(st + 1)); }
        let snd = find_char(&tail, '"');
        if snd.is_none() {
            proof { assert(done + Seq::<Seq<char>>::empty() =~= done); }
            break;
        }
        let l = snd.unwrap();
        let p = slice(&after, st + 1, st + 1 + l);
        let ghost piece: Seq<Seq<char>> = if starts(p@, "/"@) { seq![p@] } else { Seq::empty() };
        if starts_with(&p, "/") {
            out.push(string_of(&p));
        }
        proof {
            assert(done + piece + spec_axum_routes(after@) =~= done + (piece + spec_axum_routes(after@)));
            done = done + piece;
        }
        rest = after;
    }
    out
}

// ---------------------------------------------------------------------------
// Anchors

/// Whether byte `b` is ASCII white space.
pub open spec fn ascii_white(b: u8) -> bool {
    b == 32 || b == 9 || b == 10 || b == 12 || b == 13
}

/// Whether an anchor tag opens at byte `i`: `<a` followed by white space or
/// `>` (so `<article>` is not one).
pub open spec fn anchor_at(b: Seq<u8>, i: int) -> bool {
    0 <= i && i + 2 < b.len() && b[i] == 60 && b[i + 1] == 97 && (ascii_white(b[i + 2]) || b[i + 2] == 62)
}

/// The byte offsets, in order, of every anchor that opens in `b[..n]`.
pub open spec fn anchors_before(b: Seq<u8>, n: int) -> Seq<usize>
    decreases n,
{
    if n <= 0 {
        Seq::empty()
    } else if anchor_at(b, n - 1) {
        anchors_before(b, n - 1).push((n - 1) as usize)
    } else {
        anchors_before(b, n - 1)
    }
}

/// Byte offsets of every `<a` that opens an anchor tag in `src`, across line
/// breaks as well as spaces.
pub fn anchor_offsets(src: &str) -> (r: Vec<usize>)
    ensures
        r@ == anchors_before(src.spec_bytes(), src.spec_bytes().len() as int),
{
    let b = src.as_bytes();
    let mut out: Vec<usize> = Vec::new();
    let mut i: usize = 0;
    while i < b.len()
        invariant
            i <= b.len(),
            b@ == src.spec_bytes(),
            out@ == anchors_before(b@, i as int),
        decreases b.len() - i,
    {
        if b.len() - i > 2 && b[i] == 60 && b[i + 1] == 97 {
            let c = b[i + 2];
            if c == 32 || c == 9 || c == 10 || c == 12 || c == 13 || c == 62 {
                out.push(i);
            }
        }
        i = i + 1;
    }
    out
}

/// A tag with the insides of its string literals removed, the quotes kept.
pub open spec fn strip_strings(s: Seq<char>, in_string: bool) -> Seq<char>
    decreases s.len(),
{
    if s.len() == 0 {
        Seq::empty()
    } else if s[0] == '"' {
        seq!['"'] + strip_strings(s.drop_first(), !in_string)
    } else if !in_string {
        seq![s[0]] + strip_strings(s.drop_first(), in_string)
    } else {
        strip_strings(s.drop_first(), in_string)
    }
}

pub fn without_string_contents(tag: &str) -> (r: String)
    ensures
        r@ == strip_strings(tag@, false),
{
    let c = chars_of(tag);
    let mut out: Vec<char> = Vec::new();
    let mut in_string = false;
    let mut i: usize = 0;
    proof { assert(c@.skip(0) =~= c@); }
    while i < c.len()
        invariant
            i <= c.len(),
            c@ == tag@,
            out@ + strip_strings(c@.skip(i as int), in_string) == strip_strings(tag@, false),
        decreases c.len() - i,
    {
        let ch = c[i];
        let ghost before = out@;
        proof { assert(c@.skip(i as int).drop_first() =~= c@.skip(i as int + 1)); }
        if ch == '"' {
            in_string = !in_string;
            out.push('"');
            proof {
                assert(before.push('"') + strip_strings(c@.skip(i as int + 1), in_string)
                    =~= before + (seq!['"'] + strip_strings(c@.skip(i as int + 1), in_string)));
            }
        } else if !in_string {
            out.push(ch);
            proof {
                assert(before.push(ch) + strip_strings(c@.skip(i as int + 1), in_string)
                    =~= before + (seq![ch] + strip_strings(c@.skip(i as int + 1), in_string)));
            }
        }
        i = i + 1;
    }
    proof { assert(out@ + Seq::<char>::empty() =~= out@); }
    string_of(&out)
}

/// Token separators for attribute names: white space and `=`.
pub open spec fn attr_sep(c: char) -> bool {
    is_white(c) || c == '='
}

/// Whether `download` is a whole token of `s`, between separators or the
/// ends.
pub open spec fn has_token_download(s: Seq<char>) -> bool {
    exists|i: int| 0 <= i && i + 8 <= s.len() && #[trigger] s.subrange(i, i + 8) == "download"@
        && (i == 0 || attr_sep(s[i - 1])) && (i + 8 == s.len() || attr_sep(s[i + 8]))
}

/// Whether a tag carries `download` as an attribute of its own, not merely
/// the word inside a string literal.
pub fn has_download_attr(tag: &str) -> (b: bool)
    ensures
        b == has_token_download(strip_strings(tag@, false)),
{
    let t = without_string_contents(tag);
    let s = chars_of(t.as_str());
    proof { reveal_strlit("download"); }
    let mut i: usize = 0;
    while s.len() >= 8 && i <= s.len() - 8
        invariant
            s@ == strip_strings(tag@, false),
            i <= s.len(),
            forall|j: int| 0 <= j < i && j + 8 <= s@.len() ==> !(#[trigger] s@.subrange(j, j + 8) == "download"@
                && (j == 0 || attr_sep(s@[j - 1])) && (j + 8 == s@.len() || attr_sep(s@[j + 8]))),
        decreases s.len() - i,
    {
        let word = slice(&s, i, i + 8);
        let is_word = equals(&word, "download");
        let left = i == 0 || char_is_white(s[i - 1]) || s[i - 1] == '=';
        let right = i + 8 == s.len() || char_is_white(s[i + 8]) || s[i + 8] == '=';
        if is_word && left && right {
            proof { assert(s@.subrange(i as int, i + 8) == "download"@); }
            return true;
        }
        i = i + 1;
    }
    proof {
        assert forall|j: int| 0 <= j && j + 8 <= s@.len() implies !(#[trigger] s@.subrange(j, j + 8) == "download"@
            && (j == 0 || attr_sep(s@[j - 1])) && (j + 8 == s@.len() || attr_sep(s@[j + 8]))) by {}
    }
    false
}

/// The path in an anchor's `href`: the first string literal after `href=`,
/// when it starts with `/`.
pub open spec fn spec_href_of(tag: Seq<char>) -> Option<Seq<char>> {
    match find_sub(tag, "href="@) {
        None => None,
        Some(k) => {
            let after = tag.skip(k + 5);
            match first_index(after, '"') {
                None => None,
                Some(q) => {
                    let rest = after.skip(q + 1);
                    match first_index(rest, '"') {
                        None => None,
                        Some(l) => if starts(rest.take(l), "/"@) { Some(rest.take(l)) } else { None },
                    }
                },
            }
        },
    }
}

pub fn href_of(tag: &str) -> (r: Option<String>)
    ensures
        match spec_href_of(tag@) {
            Some(v) => r matches Some(s) && s@ == v,
            None => r is None,
        },
{
    let t = chars_of(tag);
    proof { reveal_strlit("href="); assert("href="@.len() == 5); lemma_find_sub(t@, "href="@); }
    let k = match find_str(&t, "href=") {
        Some(k) => k,
        None => return None,
    };
    assert(k + 5 <= t.len());
    let after = slice(&t, k + 5, t.len());
    proof { assert(after@ =~= t@.skip(k + 5)); }
    let fq = find_char(&after, '"');
    if fq.is_none() {
        return None;
    }
    let q = fq.unwrap();
    let rest = slice(&after, q + 1, after.len());
    proof { assert(rest@ =~= after@.skip(q + 1)); }
    let fl = find_char(&rest, '"');
    if fl.is_none() {
        return None;
    }
    let l = fl.unwrap();
    let v = slice(&rest, 0, l);
    proof { assert(v@ =~= rest@.take(l as int)); }
    if starts_with(&v, "/") { Some(string_of(&v)) } else { None }
}

/// Whether an anchor to a server route is safe from the client router:
/// it must say `rel="external"` or carry `download`.
pub fn opts_out_of_router(tag: &str) -> (b: bool)
    ensures
        b == (crate::text::find_sub(tag@, "rel=\"external\""@) is Some || has_token_download(strip_strings(tag@, false))),
{
    let t = chars_of(tag);
    proof { reveal_strlit("rel=\"external\""); }
    find_str(&t, "rel=\"external\"").is_some() || has_download_attr(tag)
}

} // verus!
