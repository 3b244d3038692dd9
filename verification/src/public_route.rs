//! The stable routes meant for consumption outside the site's own frontend:
//! the `/embed/:id` card, `/oembed`, and the same-origin download proxy. The
//! I/O lives with the server; what each route decides and writes is here.
use vstd::prelude::*;
use crate::text::{chars_of, owned, push_char, push_str, push_chars, string_of, slice, find_str,
    find_char, first_index, find_sub, take_before2, before_first2, trim, trimmed, trim_end_char, trim_end,
    trim_start_char, trim_start, equals, flat_map, lemma_flat_map_step, lemma_find_sub, first_of2};
use crate::seo::{attr_escape, spec_attr_escape, absolute, spec_absolute, embed_path, embed_iframe, spec_embed_iframe,
    EMBED_DEFAULT_W, EMBED_BAR_H};
use crate::storage::THUMB_MAX_EDGE;
use crate::text::{push_decimal, decimal};
use crate::models::Son;
use crate::unicode::{is_alphanumeric, unicode_alphanumeric, is_ascii};
use crate::text::is_ascii_alnum;

verus! {

/// How `filename_for` writes one character of a title.
pub open spec fn filename_char(c: char) -> char {
    if unicode_alphanumeric(c) || c == ' ' || c == '-' { c } else { '_' }
}

/// A title, filesystem-safe.
pub open spec fn spec_filename_for(title: Seq<char>) -> Seq<char> {
    let t = trimmed(title.map_values(|c: char| filename_char(c)));
    if t.len() == 0 { "son.png"@ } else { t + ".png"@ }
}

/// A son's title as a download filename: anything but letters, digits,
/// spaces and hyphens becomes `_`, and a title with nothing usable left is
/// `son.png`.
pub fn filename_for(title: &str) -> (r: String)
    ensures
        r@ == spec_filename_for(title@),
        forall|j: int| 0 <= j < title@.len() && is_ascii(#[trigger] title@[j]) ==>
            unicode_alphanumeric(title@[j]) == is_ascii_alnum(title@[j]),
{
    let tc = chars_of(title);
    let mut cleaned: Vec<char> = Vec::new();
    let mut i: usize = 0;
    while i < tc.len()
        invariant
            i <= tc.len(),
            tc@ == title@,
            cleaned@ == title@.take(i as int).map_values(|c: char| filename_char(c)),
            forall|j: int| 0 <= j < i && is_ascii(#[trigger] title@[j]) ==>
                unicode_alphanumeric(title@[j]) == is_ascii_alnum(title@[j]),
        decreases tc.len() - i,
    {
        let c = tc[i];
        let keep = is_alphanumeric(c) || c == ' ' || c == '-';
        cleaned.push(if keep { c } else { '_' });
        proof {
            assert(title@.take(i as int + 1).map_values(|c: char| filename_char(c))
                =~= title@.take(i as int).map_values(|c: char| filename_char(c)).push(filename_char(c)));
        }
        i = i + 1;
    }
    proof { assert(title@.take(tc.len() as int) =~= title@); }
    let t = trim(&cleaned);
    if t.len() == 0 {
        owned("son.png")
    } else {
        let mut r = string_of(&t);
        push_str(&mut r, ".png");
        r
    }
}

/// The path part of a URL as `extract_son_ref` reads it: everything after
/// the host when there is a scheme and a slash after it, else the whole
/// input.
pub open spec fn ref_path(u: Seq<char>) -> Seq<char> {
    match find_sub(u, "://"@) {
        Some(i) => {
            let rest = u.skip(i + "://"@.len());
            match first_index(rest, '/') {
                Some(j) => rest.skip(j + 1),
                None => u,
            }
        },
        None => u,
    }
}

/// `/son/<id>` or `/embed/<id>` (from any host, with or without a trailing
/// slash) as the id and whether it was the embed form.
pub open spec fn spec_extract_son_ref(u: Seq<char>) -> Option<(Seq<char>, bool)> {
    let t = trim_end(trim_start(before_first2(ref_path(u), '?', '#'), '/'), '/');
    match first_index(t, '/') {
        Some(i) => {
            let first = t.take(i);
            let after = t.skip(i + 1);
            let id = match first_index(after, '/') {
                Some(j) => after.take(j),
                None => after,
            };
            if first == "son"@ || first == "embed"@ {
                if id.len() == 0 { None } else { Some((id, first == "embed"@)) }
            } else {
                None
            }
        },
        None => None,
    }
}

proof fn lemma_first_of2_facts(s: Seq<char>, a: char, b: char)
    ensures
        match first_of2(s, a, b) {
            Some(i) => 0 <= i < s.len() && (s[i] == a || s[i] == b)
                && forall|j: int| 0 <= j < i ==> s[j] != a && s[j] != b,
            None => forall|j: int| 0 <= j < s.len() ==> s[j] != a && s[j] != b,
        },
    decreases s.len(),
{
    if s.len() > 0 && !(s[0] == a || s[0] == b) {
        lemma_first_of2_facts(s.drop_first(), a, b);
        assert forall|j: int| 1 <= j < s.len() implies s[j] == s.drop_first()[j - 1] by {}
    }
}

proof fn lemma_trims_avoid(s: Seq<char>, c: char, a: char, b: char)
    requires
        forall|j: int| 0 <= j < s.len() ==> s[j] != a && s[j] != b,
    ensures
        forall|j: int| 0 <= j < trim_start(s, c).len() ==> trim_start(s, c)[j] != a && trim_start(s, c)[j] != b,
        forall|j: int| 0 <= j < trim_end(s, c).len() ==> trim_end(s, c)[j] != a && trim_end(s, c)[j] != b,
    decreases s.len(),
{
    if s.len() > 0 {
        assert forall|j: int| 0 <= j < s.drop_first().len() implies
            s.drop_first()[j] != a && s.drop_first()[j] != b by { assert(s.drop_first()[j] == s[j + 1]); }
        assert forall|j: int| 0 <= j < s.drop_last().len() implies
            s.drop_last()[j] != a && s.drop_last()[j] != b by { assert(s.drop_last()[j] == s[j]); }
        lemma_trims_avoid(s.drop_first(), c, a, b);
        lemma_trims_avoid(s.drop_last(), c, a, b);
        if s[0] == c {
            assert(trim_start(s, c) == trim_start(s.drop_first(), c));
        } else {
            assert(trim_start(s, c) == s);
        }
        if s.last() == c {
            assert(trim_end(s, c) == trim_end(s.drop_last(), c));
        } else {
            assert(trim_end(s, c) == s);
        }
    }
}

/// The id read from a son or embed URL is one whole path segment: never
/// empty, and holding no `/`, `?` or `#`, since any query or fragment is cut
/// off before the path is split.
pub proof fn lemma_son_ref_id_is_one_segment(u: Seq<char>)
    ensures
        match spec_extract_son_ref(u) {
            Some((id, _)) => id.len() > 0 && forall|j: int| 0 <= j < id.len() ==>
                id[j] != '/' && id[j] != '?' && id[j] != '#',
            None => true,
        },
{
    let p = ref_path(u);
    let b = before_first2(p, '?', '#');
    lemma_first_of2_facts(p, '?', '#');
    assert forall|j: int| 0 <= j < b.len() implies b[j] != '?' && b[j] != '#' by {
        match first_of2(p, '?', '#') {
            Some(i) => { assert(b[j] == p[j]); }
            None => {}
        }
    }
    lemma_trims_avoid(b, '/', '?', '#');
    let ts = trim_start(b, '/');
    lemma_trims_avoid(ts, '/', '?', '#');
    let t = trim_end(ts, '/');
    match first_index(t, '/') {
        Some(i) => {
            crate::text::lemma_first_index(t, '/');
            let after = t.skip(i + 1);
            crate::text::lemma_first_index(after, '/');
            assert forall|j: int| 0 <= j < after.len() implies after[j] != '?' && after[j] != '#' by {
                assert(after[j] == t[i + 1 + j]);
            }
            match first_index(after, '/') {
                Some(k) => {
                    let id = after.take(k);
                    assert forall|j: int| 0 <= j < id.len() implies
                        id[j] != '/' && id[j] != '?' && id[j] != '#' by { assert(id[j] == after[j]); }
                }
                None => {}
            }
        }
        None => {}
    }
}

proof fn lemma_find_sub_first(s: Seq<char>, p: Seq<char>, k: int)
    requires
        0 <= k,
        k + p.len() <= s.len(),
        s.subrange(k, k + p.len()) == p,
        forall|j: int| 0 <= j < k ==> #[trigger] s.subrange(j, j + p.len()) != p,
    ensures
        find_sub(s, p) == Some(k),
    decreases k,
{
    if k > 0 {
        let t = s.drop_first();
        assert(s.subrange(0int, 0int + p.len()) != p);
        assert(s.subrange(0, p.len() as int) != p);
        assert(t.subrange(k - 1, k - 1 + p.len()) =~= s.subrange(k, k + p.len()));
        assert forall|j: int| 0 <= j < k - 1 implies #[trigger] t.subrange(j, j + p.len()) != p by {
            assert(t.subrange(j, j + p.len()) =~= s.subrange(j + 1, j + 1 + p.len()));
        }
        lemma_find_sub_first(t, p, k - 1);
    }
}

/// A son or embed page URL with a host, an id that is one path segment, and
/// maybe a query or fragment after it, gives back exactly that id, and says
/// whether it was the embed form.
pub proof fn lemma_son_ref_of_a_page_url(host: Seq<char>, kind: Seq<char>, id: Seq<char>, q: Seq<char>)
    requires
        forall|j: int| 0 <= j < host.len() ==> host[j] != '/',
        kind == "son"@ || kind == "embed"@,
        id.len() > 0,
        forall|j: int| 0 <= j < id.len() ==> id[j] != '/' && id[j] != '?' && id[j] != '#',
        q.len() == 0 || q[0] == '?' || q[0] == '#',
    ensures
        spec_extract_son_ref("https://"@ + host + "/"@ + kind + "/"@ + id + q) == Some((id, kind == "embed"@)),
{
    reveal_strlit("https://");
    reveal_strlit("://");
    reveal_strlit("/");
    reveal_strlit("son");
    reveal_strlit("embed");
    let u = "https://"@ + host + "/"@ + kind + "/"@ + id + q;
    let sep = "://"@;
    assert(sep.len() == 3);
    assert(u.subrange(5, 8) =~= sep);
    assert forall|j: int| 0 <= j < 5 implies #[trigger] u.subrange(j, j + sep.len()) != sep by {
        assert(u.subrange(j, j + 3)[0] == u[j]);
    }
    lemma_find_sub_first(u, sep, 5);
    let rest = u.skip(8);
    assert(rest =~= host + ("/"@ + kind + "/"@ + id + q));
    crate::text::lemma_first_index_is(rest, '/', host.len() as int);
    let path = kind + "/"@ + id + q;
    assert(rest.skip(host.len() as int + 1) =~= path);
    assert(ref_path(u) == path);
    let b = kind + "/"@ + id;
    let n = b.len() as int;
    assert forall|j: int| 0 <= j < n implies path[j] != '?' && path[j] != '#' by {
        assert(path[j] == b[j]);
        if j > kind.len() { assert(b[j] == id[j - kind.len() - 1]); }
    }
    lemma_first_of2_facts(path, '?', '#');
    if q.len() == 0 {
        assert(path =~= b);
        assert(before_first2(path, '?', '#') == b);
    } else {
        assert(path[n] == q[0]);
        match first_of2(path, '?', '#') {
            Some(i) => { assert(i == n); }
            None => {}
        }
        assert(path.take(n) =~= b);
        assert(before_first2(path, '?', '#') == b);
    }
    assert(b[0] == kind[0]);
    assert(trim_start(b, '/') == b);
    assert(b.last() == id.last());
    assert(trim_end(b, '/') == b);
    let k = kind.len() as int;
    assert forall|j: int| 0 <= j < k implies b[j] != '/' by { assert(b[j] == kind[j]); }
    crate::text::lemma_first_index_is(b, '/', k);
    assert(b.take(k) =~= kind);
    assert(b.skip(k + 1) =~= id);
    crate::text::lemma_first_index(id, '/');
}

/// Pulls the id out of a son or embed page URL, and says which of the two it
/// was: `photo` versus `rich` in oEmbed terms.
pub fn extract_son_ref(url: &str) -> (r: Option<(String, bool)>)
    ensures
        match r {
            Some((id, embed)) => spec_extract_son_ref(url@) == Some((id@, embed)),
            None => spec_extract_son_ref(url@) is None,
        },
{
    let u = chars_of(url);
    proof { reveal_strlit("://"); assert("://"@.len() == 3); lemma_find_sub(u@, "://"@); }
    let path: Vec<char> = match find_str(&u, "://") {
        Some(i) => {
            assert(i + 3 <= u.len());
            let rest = slice(&u, i + 3, u.len());
            match find_char(&rest, '/') {
                Some(j) => {
                    let p = slice(&rest, j + 1, rest.len());
                    proof { assert(rest@ =~= u@.skip(i + "://"@.len())); assert(p@ =~= rest@.skip(j + 1)); }
                    p
                },
                None => {
                    proof { assert(rest@ =~= u@.skip(i + "://"@.len())); }
                    u
                },
            }
        },
        None => u,
    };
    let before = take_before2(&path, '?', '#');
    let t = trim_end_char(&trim_start_char(&before, '/'), '/');
    match find_char(&t, '/') {
        Some(i) => {
            assert(i < t.len());
            let first = slice(&t, 0, i);
            let after = slice(&t, i + 1, t.len());
            let id = match find_char(&after, '/') {
                Some(j) => slice(&after, 0, j),
                None => after,
            };
            proof {
                assert(first@ =~= t@.take(i as int));
                assert(after@ =~= t@.skip(i + 1));
                match first_index(after@, '/') {
                    Some(j) => { assert(id@ =~= after@.take(j)); }
                    None => {}
                }
            }
            let is_son = equals(&first, "son");
            let is_embed = equals(&first, "embed");
            if is_son || is_embed {
                if id.len() == 0 {
                    None
                } else {
                    Some((string_of(&id), is_embed))
                }
            } else {
                None
            }
        },
        None => None,
    }
}

/// Everything the framable card needs, as one inline stylesheet: the embed
/// page loads no other, so no shared class name may appear in it.
pub const EMBED_CSS: &'static str = "html,body{margin:0;height:100%;background:#08090b;color:#f4f4f5;font:400 14px/1.35 system-ui,-apple-system,Segoe UI,Roboto,sans-serif}a{color:inherit;text-decoration:none}.se-card{display:flex;flex-direction:column;height:100%;box-sizing:border-box;background:#0d0f12;border:1px solid #292d35;border-radius:10px;overflow:hidden}.se-img{flex:1 1 auto;min-height:0;display:flex;align-items:center;justify-content:center;padding:12px}.se-img img{max-width:100%;max-height:100%;width:auto;height:auto;object-fit:contain;display:block}.se-bar{flex:none;display:flex;align-items:center;justify-content:space-between;gap:8px;height:44px;padding:0 12px;border-top:1px solid #292d35}.se-title{overflow:hidden;text-overflow:ellipsis;white-space:nowrap;font-weight:500}.se-brand{flex:none;color:#ffcc33;font-size:12px}.se-miss{display:flex;height:100%;align-items:center;justify-content:center;padding:12px;text-align:center;color:#a6a8b0}";

/// The document shell of every `/embed/:id` response, hit or miss:
/// `noindex, follow`, and deliberately no canonical link.
pub open spec fn spec_embed_document(title: Seq<char>, body: Seq<char>) -> Seq<char> {
    "<!doctype html><html lang=\"en\"><head><meta charset=\"utf-8\"><meta name=\"viewport\" content=\"width=device-width,initial-scale=1\"><meta name=\"robots\" content=\"noindex, follow\"><title>"@
        + spec_attr_escape(title) + " \u{2014} son collection</title><style>"@ + EMBED_CSS@
        + "</style></head><body>"@ + body + "</body></html>"@
}

pub fn embed_document(title: &str, body: &str) -> (r: String)
    ensures
        r@ == spec_embed_document(title@, body@),
{
    let mut r = owned("<!doctype html><html lang=\"en\"><head><meta charset=\"utf-8\"><meta name=\"viewport\" content=\"width=device-width,initial-scale=1\"><meta name=\"robots\" content=\"noindex, follow\"><title>");
    let t = attr_escape(title);
    push_str(&mut r, t.as_str());
    push_str(&mut r, " \u{2014} son collection</title><style>");
    push_str(&mut r, EMBED_CSS);
    push_str(&mut r, "</style></head><body>");
    push_str(&mut r, body);
    push_str(&mut r, "</body></html>");
    r
}

/// The `srcset` attribute of the card's image: only when the thumbnail is a
/// real downscale, so the browser can pick the smaller file.
pub open spec fn spec_srcset(son: Son, thumb_width: u32) -> Seq<char> {
    if thumb_width > 0 && thumb_width < son.width {
        " srcset=\""@ + spec_attr_escape(son.thumb_url@) + " "@ + decimal(thumb_width as nat) + "w, "@
            + spec_attr_escape(son.orig_url@) + " "@ + decimal(son.width as nat)
            + "w\" sizes=\"100vw\""@
    } else {
        Seq::empty()
    }
}

/// The card's markup: the image, linked to the son's page under `origin`
/// by its slug, over a bar carrying the title.
pub open spec fn spec_embed_card(son: Son, thumb_width: u32, origin: Seq<char>) -> Seq<char> {
    "<a class=\"se-card\" href=\""@ + spec_attr_escape(origin + "/son/"@ + son.slug@)
        + "\" target=\"_blank\" rel=\"noopener\"><div class=\"se-img\"><img src=\""@
        + spec_attr_escape(son.orig_url@) + "\""@ + spec_srcset(son, thumb_width) + " alt=\""@
        + spec_attr_escape(son.title@) + "\" width=\""@ + decimal(son.width as nat) + "\" height=\""@
        + decimal(son.height as nat)
        + "\" loading=\"lazy\"></div><div class=\"se-bar\"><span class=\"se-title\">"@
        + spec_attr_escape(son.title@)
        + "</span><span class=\"se-brand\">son collection</span></div></a>"@
}

/// The whole `/embed/:id` document for a public son. `thumb_width` is the
/// width the stored thumbnail really has.
pub fn embed_page(son: &Son, thumb_width: u32, origin: &str) -> (r: String)
    ensures
        r@ == spec_embed_document(son.title@, spec_embed_card(*son, thumb_width, origin@)),
{
    let mut page = owned(origin);
    push_str(&mut page, "/son/");
    push_str(&mut page, son.slug.as_str());
    let mut body = owned("<a class=\"se-card\" href=\"");
    push_str(&mut body, attr_escape(page.as_str()).as_str());
    push_str(&mut body, "\" target=\"_blank\" rel=\"noopener\"><div class=\"se-img\"><img src=\"");
    push_str(&mut body, attr_escape(son.orig_url.as_str()).as_str());
    push_str(&mut body, "\"");
    let ghost before_srcset = body@;
    if thumb_width > 0 && thumb_width < son.width {
        push_str(&mut body, " srcset=\"");
        push_str(&mut body, attr_escape(son.thumb_url.as_str()).as_str());
        push_str(&mut body, " ");
        push_decimal(&mut body, thumb_width as u64);
        push_str(&mut body, "w, ");
        push_str(&mut body, attr_escape(son.orig_url.as_str()).as_str());
        push_str(&mut body, " ");
        push_decimal(&mut body, son.width as u64);
        push_str(&mut body, "w\" sizes=\"100vw\"");
        proof {
            assert(body@ =~= before_srcset + spec_srcset(*son, thumb_width));
        }
    } else {
        proof { assert(body@ =~= before_srcset + spec_srcset(*son, thumb_width)); }
    }
    push_str(&mut body, " alt=\"");
    push_str(&mut body, attr_escape(son.title.as_str()).as_str());
    push_str(&mut body, "\" width=\"");
    push_decimal(&mut body, son.width as u64);
    push_str(&mut body, "\" height=\"");
    push_decimal(&mut body, son.height as u64);
    push_str(&mut body, "\" loading=\"lazy\"></div><div class=\"se-bar\"><span class=\"se-title\">");
    push_str(&mut body, attr_escape(son.title.as_str()).as_str());
    push_str(&mut body, "</span><span class=\"se-brand\">son collection</span></div></a>");
    proof {
        assert(body@ =~= spec_embed_card(*son, thumb_width, origin@));
    }
    embed_document(son.title.as_str(), body.as_str())
}

/// The styled miss shown inside an embedder's iframe when a son is gone or
/// unavailable.
pub fn embed_gone_page(message: &str) -> (r: String)
    ensures
        r@ == spec_embed_document("Not found"@,
            "<div class=\"se-miss\">"@ + spec_attr_escape(message@) + "</div>"@),
{
    let mut body = owned("<div class=\"se-miss\">");
    push_str(&mut body, attr_escape(message).as_str());
    push_str(&mut body, "</div>");
    embed_document("Not found", body.as_str())
}

/// The `Content-Disposition` value that makes the download proxy save the
/// image under a name taken from its title.
pub fn content_disposition(title: &str) -> (r: String)
    ensures
        r@ == "attachment; filename=\""@ + spec_filename_for(title@) + "\""@,
{
    let mut r = owned("attachment; filename=\"");
    push_str(&mut r, filename_for(title).as_str());
    push_str(&mut r, "\"");
    r
}

/// `GET /api/v1/sons`'s query: where to resume.
#[derive(Debug)]
pub struct ListQuery {
    pub cursor: Option<String>,
}

/// `GET /oembed`'s query.
#[derive(Debug)]
pub struct OEmbedQuery {
    pub url: String,
    /// `json` or absent; anything else cannot be served.
    pub format: Option<String>,
    pub maxwidth: Option<u32>,
    pub maxheight: Option<u32>,
}

/// Why an oEmbed request is refused before any lookup.
#[derive(Clone, Copy, Debug, PartialEq, Eq, Structural)]
pub enum OEmbedRefusal {
    /// A format other than JSON: 501, as the spec asks.
    NotImplemented,
    /// Not a son or embed page of this site: 400.
    BadRequest,
}

impl OEmbedRefusal {
    /// The status line's text.
    pub fn message(&self) -> (r: &'static str)
        ensures
            r@ == (match *self {
                OEmbedRefusal::NotImplemented => "only format=json is supported"@,
                OEmbedRefusal::BadRequest => "url must point at a /son/:id or /embed/:id page on this site"@,
            }),
    {
        match self {
            OEmbedRefusal::NotImplemented => "only format=json is supported",
            OEmbedRefusal::BadRequest => "url must point at a /son/:id or /embed/:id page on this site",
        }
    }
}

/// The son an oEmbed request asks about, and whether as the embed card; or
/// why it is refused. The format is checked first.
pub fn oembed_target(q: &OEmbedQuery) -> (r: Result<(String, bool), OEmbedRefusal>)
    ensures
        match q.format {
            Some(f) if f@ != "json"@ => r == Err::<(String, bool), OEmbedRefusal>(OEmbedRefusal::NotImplemented),
            _ => match spec_extract_son_ref(q.url@) {
                Some((id, embed)) => r matches Ok((i, e)) && i@ == id && e == embed,
                None => r == Err::<(String, bool), OEmbedRefusal>(OEmbedRefusal::BadRequest),
            },
        },
{
    match &q.format {
        Some(f) => {
            let c = chars_of(f.as_str());
            if !equals(&c, "json") {
                return Err(OEmbedRefusal::NotImplemented);
            }
        }
        None => {}
    }
    match extract_son_ref(q.url.as_str()) {
        Some(found) => Ok(found),
        None => Err(OEmbedRefusal::BadRequest),
    }
}

/// An oEmbed 1.0 answer.
#[derive(Debug)]
pub struct OEmbedResponse {
    pub version: &'static str,
    /// `photo` or `rich`.
    pub kind: &'static str,
    pub title: String,
    pub author_name: Option<String>,
    pub provider_name: &'static str,
    pub provider_url: String,
    /// The image itself, for a `photo`.
    pub url: Option<String>,
    pub width: u32,
    pub height: u32,
    /// The iframe markup, for a `rich`.
    pub html: Option<String>,
    /// Seconds, matching the embed card's own cache lifetime.
    pub cache_age: &'static str,
    pub thumbnail_url: Option<String>,
    pub thumbnail_width: Option<u32>,
    pub thumbnail_height: Option<u32>,
}

/// The embed card's width for an oEmbed request: the default, narrowed by
/// `maxwidth`, and by `maxheight` less the bar (the card's height follows its
/// width), but never below the narrowest card that works.
pub open spec fn spec_card_width(maxwidth: Option<u32>, maxheight: Option<u32>) -> u32 {
    let w1: u32 = match maxwidth {
        Some(mw) => if mw < EMBED_DEFAULT_W { mw } else { EMBED_DEFAULT_W },
        None => EMBED_DEFAULT_W,
    };
    let w2: u32 = match maxheight {
        Some(mh) => {
            let room: u32 = if mh > EMBED_BAR_H { (mh - EMBED_BAR_H) as u32 } else { 0 };
            if room < w1 { room } else { w1 }
        },
        None => w1,
    };
    if w2 > 120 { w2 } else { 120 }
}

/// The card honours every bound it is given: at most `maxwidth` wide, and
/// with its 44px bar at most `maxheight` tall, whichever of them are given,
/// unless that would take it below the 120px floor; never over the 480px
/// default; and no narrower than it must be: every width from 120 to 480
/// that fits all the given bounds, `w` among them, is at most the card's.
pub proof fn lemma_card_fits_the_request(maxwidth: Option<u32>, maxheight: Option<u32>, w: int)
    ensures
        120 <= spec_card_width(maxwidth, maxheight) <= 480,
        maxwidth matches Some(m) ==> spec_card_width(maxwidth, maxheight) <= m
            || spec_card_width(maxwidth, maxheight) == 120,
        maxheight matches Some(h) ==> spec_card_width(maxwidth, maxheight) + 44 <= h
            || spec_card_width(maxwidth, maxheight) == 120,
        (120 <= w <= 480 && (maxwidth matches Some(m) ==> w <= m)
            && (maxheight matches Some(h) ==> w + 44 <= h)) ==> w <= spec_card_width(maxwidth, maxheight),
{
}

pub fn card_width(maxwidth: Option<u32>, maxheight: Option<u32>) -> (r: u32)
    ensures
        r == spec_card_width(maxwidth, maxheight),
        120 <= r <= EMBED_DEFAULT_W,
{
    let mut w = EMBED_DEFAULT_W;
    match maxwidth {
        Some(mw) => if mw < w { w = mw; },
        None => {}
    }
    match maxheight {
        Some(mh) => {
            let room: u32 = if mh > EMBED_BAR_H { mh - EMBED_BAR_H } else { 0 };
            if room < w { w = room; }
        }
        None => {}
    }
    if w > 120 { w } else { 120 }
}

/// The smaller of the requested bounds, if any was given.
pub open spec fn spec_cap(maxwidth: Option<u32>, maxheight: Option<u32>) -> Option<u32> {
    match (maxwidth, maxheight) {
        (Some(a), Some(b)) => Some(if a < b { a } else { b }),
        (Some(a), None) => Some(a),
        (None, Some(b)) => Some(b),
        (None, None) => None,
    }
}

pub open spec fn opt_str(o: Option<&str>) -> Option<Seq<char>> {
    match o {
        Some(v) => Some(v@),
        None => None,
    }
}

pub open spec fn opt_string(o: Option<String>) -> Option<Seq<char>> {
    match o {
        Some(v) => Some(v@),
        None => None,
    }
}

/// The oEmbed answer for a public son. `thumb` is the stored thumbnail's
/// real size; `provider` is the site origin; `origin` is the configured
/// origin the embed URL is made absolute under. A `/son/` URL is a `photo`
/// (the thumbnail when the consumer asked for no more than a thumbnail's
/// size), an `/embed/` URL a `rich` card at the width the bounds allow; the
/// three thumbnail fields are all present or all absent.
pub fn oembed_response(son: &Son, embed: bool, maxwidth: Option<u32>, maxheight: Option<u32>, thumb: (u32, u32),
    provider: &str, origin: Option<&str>) -> (r: OEmbedResponse)
    ensures
        r.version@ == "1.0"@,
        r.title@ == son.title@,
        opt_string(r.author_name) == (match son.uploader { Some(u) => Some(u.display_name@), None => None }),
        r.provider_name@ == "son collection"@,
        r.provider_url@ == provider@,
        r.cache_age@ == "300"@,
        (thumb.0 > 0 && thumb.1 > 0) ==> (opt_string(r.thumbnail_url) == Some(son.thumb_url@)
            && r.thumbnail_width == Some(thumb.0) && r.thumbnail_height == Some(thumb.1)),
        !(thumb.0 > 0 && thumb.1 > 0) ==> (r.thumbnail_url is None && r.thumbnail_width is None
            && r.thumbnail_height is None),
        embed ==> ({
            let w = spec_card_width(maxwidth, maxheight);
            &&& r.kind@ == "rich"@
            &&& r.width == w
            &&& r.height == w + EMBED_BAR_H
            &&& r.url is None
            &&& opt_string(r.html) == Some(spec_embed_iframe(
                spec_absolute("/embed/"@ + son.slug@, opt_str(origin)), son.title@, w, (w + EMBED_BAR_H) as u32))
        }),
        !embed ==> ({
            let small = (spec_cap(maxwidth, maxheight) matches Some(c) && c <= THUMB_MAX_EDGE) && thumb.0 > 0;
            &&& r.kind@ == "photo"@
            &&& r.html is None
            &&& small ==> opt_string(r.url) == Some(son.thumb_url@) && r.width == thumb.0 && r.height == thumb.1
            &&& !small ==> opt_string(r.url) == Some(son.orig_url@) && r.width == son.width && r.height == son.height
        }),
{
    let (tw, th) = thumb;
    let has_thumb = tw > 0 && th > 0;
    let mut resp = OEmbedResponse {
        version: "1.0",
        kind: "photo",
        title: son.title.clone(),
        author_name: match &son.uploader {
            Some(u) => Some(u.display_name.clone()),
            None => None,
        },
        provider_name: "son collection",
        provider_url: owned(provider),
        url: None,
        width: 0,
        height: 0,
        html: None,
        cache_age: "300",
        thumbnail_url: if has_thumb { Some(son.thumb_url.clone()) } else { None },
        thumbnail_width: if has_thumb { Some(tw) } else { None },
        thumbnail_height: if has_thumb { Some(th) } else { None },
    };
    if embed {
        let w = card_width(maxwidth, maxheight);
        let path = embed_path(son.slug.as_str());
        let embed_url = absolute(path.as_str(), origin);
        resp.kind = "rich";
        resp.width = w;
        resp.height = w + EMBED_BAR_H;
        resp.html = Some(embed_iframe(embed_url.as_str(), son.title.as_str(), w, w + EMBED_BAR_H));
    } else {
        let cap: Option<u32> = match (maxwidth, maxheight) {
            (Some(a), Some(b)) => Some(if a < b { a } else { b }),
            (Some(a), None) => Some(a),
            (None, Some(b)) => Some(b),
            (None, None) => None,
        };
        let small = match cap {
            Some(c) => c <= THUMB_MAX_EDGE,
            None => false,
        } && tw > 0;
        if small {
            resp.url = Some(son.thumb_url.clone());
            resp.width = tw;
            resp.height = th;
        } else {
            resp.url = Some(son.orig_url.clone());
            resp.width = son.width;
            resp.height = son.height;
        }
    }
    resp
}

/// The site's own origin: the configured one, or the local address the
/// server listens on by default.
pub fn site_origin_from(var: Option<String>) -> (r: String)
    ensures
        match var {
            Some(v) => r@ == v@,
            None => r@ == "http://127.0.0.1:3100"@,
        },
{
    match var {
        Some(v) => v,
        None => owned("http://127.0.0.1:3100"),
    }
}

} // verus!
