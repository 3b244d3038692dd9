//! What the crawler-facing routes serve: `robots.txt`, `llms.txt` and
//! `sitemap.xml` (with the image extension), for a given site origin.
use vstd::prelude::*;
use crate::db::SitemapSon;
use crate::seo::{w3c_lastmod, spec_w3c_lastmod};
use crate::text::{push_str, push_char, chars_of, flat_map, lemma_flat_map_step, lemma_flat_map_avoids};

verus! {

/// How `xml_escape` writes one character.
pub open spec fn xml_char(c: char) -> Seq<char> {
    if c == '&' {
        "&amp;"@
    } else if c == '<' {
        "&lt;"@
    } else if c == '>' {
        "&gt;"@
    } else if c == '"' {
        "&quot;"@
    } else if c == '\'' {
        "&apos;"@
    } else {
        seq![c]
    }
}

/// Text with the five characters XML gives structure to written as their
/// predefined entities.
pub open spec fn spec_xml_escape(s: Seq<char>) -> Seq<char> {
    flat_map(s, |c: char| xml_char(c))
}

pub fn xml_escape(s: &str) -> (r: String)
    ensures
        r@ == spec_xml_escape(s@),
{
    let c = chars_of(s);
    let mut r = String::new();
    let mut i: usize = 0;
    proof { assert(c@.take(0) =~= Seq::<char>::empty()); }
    while i < c.len()
        invariant
            i <= c.len(),
            c@ == s@,
            r@ == flat_map(c@.take(i as int), |c: char| xml_char(c)),
        decreases c.len() - i,
    {
        proof { lemma_flat_map_step(c@, i as int, |c: char| xml_char(c)); }
        let ch = c[i];
        let ghost before = r@;
        if ch == '&' {
            push_str(&mut r, "&amp;");
        } else if ch == '<' {
            push_str(&mut r, "&lt;");
        } else if ch == '>' {
            push_str(&mut r, "&gt;");
        } else if ch == '"' {
            push_str(&mut r, "&quot;");
        } else if ch == '\'' {
            push_str(&mut r, "&apos;");
        } else {
            push_char(&mut r, ch);
            proof { assert(before.push(ch) =~= before + seq![ch]); }
        }
        i = i + 1;
    }
    proof { assert(c@.take(c@.len() as int) =~= c@); }
    r
}

/// Escaped text holds no `<`, `>` or quote of either kind, so free-text
/// titles cannot open a tag or end an attribute.
pub proof fn lemma_xml_escape_is_inert(s: Seq<char>)
    ensures
        forall|j: int| 0 <= j < spec_xml_escape(s).len() ==> {
            let c = #[trigger] spec_xml_escape(s)[j];
            c != '<' && c != '>' && c != '"' && c != '\''
        },
{
    reveal_strlit("&amp;");
    reveal_strlit("&lt;");
    reveal_strlit("&gt;");
    reveal_strlit("&quot;");
    reveal_strlit("&apos;");
    let f = |c: char| xml_char(c);
    let bad = |c: char| c == '<' || c == '>' || c == '"' || c == '\'';
    assert forall|c: char, j: int| 0 <= j < f(c).len() implies !bad(#[trigger] f(c)[j]) by {}
    lemma_flat_map_avoids(s, f, bad);
}

/// A `<lastmod>` element for a stored timestamp, or nothing when it cannot
/// be normalised: an invalid one is worse than none.
pub open spec fn spec_lastmod_tag(raw: Seq<char>) -> Seq<char> {
    match spec_w3c_lastmod(raw) {
        Some(d) => "<lastmod>"@ + spec_xml_escape(d) + "</lastmod>"@,
        None => Seq::empty(),
    }
}

pub fn lastmod_tag(raw: &str) -> (r: String)
    ensures
        r@ == spec_lastmod_tag(raw@),
{
    let mut r = String::new();
    match w3c_lastmod(raw) {
        Some(d) => {
            push_str(&mut r, "<lastmod>");
            let e = xml_escape(d.as_str());
            push_str(&mut r, e.as_str());
            push_str(&mut r, "</lastmod>");
        }
        None => {}
    }
    r
}

/// The body of `robots.txt`: everything allowed but the admin, API, auth,
/// oEmbed, raw-upload and download paths, and the sitemap's address.
pub open spec fn spec_robots_txt(origin: Seq<char>) -> Seq<char> {
    "User-agent: *\nAllow: /\nDisallow: /admin\nDisallow: /api/\nDisallow: /auth/\nDisallow: /oembed\nDisallow: /uploads/\nDisallow: /son/*/download\nSitemap: "@
        + origin + "/sitemap.xml\n"@
}

pub fn robots_txt(origin: &str) -> (r: String)
    ensures
        r@ == spec_robots_txt(origin@),
{
    let mut r = String::new();
    push_str(&mut r, "User-agent: *\nAllow: /\nDisallow: /admin\nDisallow: /api/\nDisallow: /auth/\nDisallow: /oembed\nDisallow: /uploads/\nDisallow: /son/*/download\nSitemap: ");
    push_str(&mut r, origin);
    push_str(&mut r, "/sitemap.xml\n");
    r
}

/// The body of `llms.txt`: what the site is, its pages and its API.
pub open spec fn spec_llms_txt(o: Seq<char>) -> Seq<char> {
    "# son collection\n\n> Every image is somebody's son. A community gallery of the \"son\" meme and its wordplay variants -- Sonion, Capri-Son, Dy-Son, Sonflower, and anything else with a son hidden in it. Free, anonymous-friendly uploads, moderated by report after publishing.\n\n## Pages\n\n- [Gallery]("@
        + o + "/): every public son, sortable newest / most-liked / A-Z / \"sun level\"\n- [Leaderboard]("@
        + o + "/leaderboard): top contributors by upload count\n- [Upload]("@
        + o + "/upload): contribute a son, no account required\n- [Search]("@
        + o + "/search?q=...): full-text search over titles and tags\n\n## API\n\n- `GET "@
        + o + "/api/v1/sons` -- paginated JSON list of public sons\n- `GET "@
        + o + "/api/v1/sons/:id` -- a single public son\n- `GET "@
        + o + "/embed/:slug` -- a standalone, framable card for one son (iframe it; noindex, no JavaScript)\n- `GET "@
        + o + "/oembed?url=...` -- oEmbed 1.0 metadata. A `/son/` URL returns `type: photo`; an `/embed/` URL returns `type: rich` with ready-made iframe HTML\n- `GET "@
        + o + "/sitemap.xml` -- full sitemap, including an image sitemap extension\n"@
}

pub fn llms_txt(origin: &str) -> (r: String)
    ensures
        r@ == spec_llms_txt(origin@),
{
    let mut r = String::new();
    push_str(&mut r, "# son collection\n\n> Every image is somebody's son. A community gallery of the \"son\" meme and its wordplay variants -- Sonion, Capri-Son, Dy-Son, Sonflower, and anything else with a son hidden in it. Free, anonymous-friendly uploads, moderated by report after publishing.\n\n## Pages\n\n- [Gallery](");
    push_str(&mut r, origin);
    push_str(&mut r, "/): every public son, sortable newest / most-liked / A-Z / \"sun level\"\n- [Leaderboard](");
    push_str(&mut r, origin);
    push_str(&mut r, "/leaderboard): top contributors by upload count\n- [Upload](");
    push_str(&mut r, origin);
    push_str(&mut r, "/upload): contribute a son, no account required\n- [Search](");
    push_str(&mut r, origin);
    push_str(&mut r, "/search?q=...): full-text search over titles and tags\n\n## API\n\n- `GET ");
    push_str(&mut r, origin);
    push_str(&mut r, "/api/v1/sons` -- paginated JSON list of public sons\n- `GET ");
    push_str(&mut r, origin);
    push_str(&mut r, "/api/v1/sons/:id` -- a single public son\n- `GET ");
    push_str(&mut r, origin);
    push_str(&mut r, "/embed/:slug` -- a standalone, framable card for one son (iframe it; noindex, no JavaScript)\n- `GET ");
    push_str(&mut r, origin);
    push_str(&mut r, "/oembed?url=...` -- oEmbed 1.0 metadata. A `/son/` URL returns `type: photo`; an `/embed/` URL returns `type: rich` with ready-made iframe HTML\n- `GET ");
    push_str(&mut r, origin);
    push_str(&mut r, "/sitemap.xml` -- full sitemap, including an image sitemap extension\n");
    r
}

/// Most sons listed in one sitemap file, under the protocol's limit.
pub const MAX_SITEMAP_SONS: i64 = 45_000;

/// Whether the sitemap hit its cap, so older sons are being left out.
pub fn sitemap_at_cap(n: usize) -> (r: bool)
    ensures
        r == (n >= MAX_SITEMAP_SONS),
{
    n as u64 >= 45_000
}

pub open spec fn sitemap_head() -> Seq<char> {
    "<?xml version=\"1.0\" encoding=\"UTF-8\"?>\n<urlset xmlns=\"http://www.sitemaps.org/schemas/sitemap/0.9\" xmlns:image=\"http://www.google.com/schemas/sitemap-image/1.1\">\n"@
}

/// One fixed page's entry.
pub open spec fn static_entry(o: Seq<char>, path: Seq<char>, lastmod: Seq<char>, freq: Seq<char>, prio: Seq<char>) -> Seq<char> {
    "  <url><loc>"@ + o + path + "</loc>"@ + lastmod + "<changefreq>"@ + freq + "</changefreq><priority>"@ + prio
        + "</priority></url>\n"@
}

/// The fixed pages. Only the gallery and the leaderboard change when the
/// collection does, so only they carry the newest son's date.
pub open spec fn static_entries(o: Seq<char>, newest: Seq<char>) -> Seq<char> {
    static_entry(o, "/"@, newest, "hourly"@, "1.0"@)
        + static_entry(o, "/leaderboard"@, newest, "daily"@, "0.5"@)
        + static_entry(o, "/upload"@, Seq::empty(), "monthly"@, "0.3"@)
        + static_entry(o, "/privacy"@, Seq::empty(), "yearly"@, "0.1"@)
        + static_entry(o, "/tos"@, Seq::empty(), "yearly"@, "0.1"@)
}

/// One son's entry, with its picture in the image extension.
pub open spec fn son_entry(o: Seq<char>, s: SitemapSon) -> Seq<char> {
    let tag = spec_lastmod_tag(s.created_at@);
    "  <url>\n    <loc>"@ + o + "/son/"@ + spec_xml_escape(s.id@) + "</loc>\n"@
        + (if tag.len() == 0 { Seq::empty() } else { "    "@ + tag + "\n"@ })
        + "    <image:image>\n      <image:loc>"@ + spec_xml_escape(s.orig_url@)
        + "</image:loc>\n      <image:title>"@ + spec_xml_escape(s.title@)
        + "</image:title>\n    </image:image>\n  </url>\n"@
}

pub open spec fn son_entries(o: Seq<char>, sons: Seq<SitemapSon>) -> Seq<char>
    decreases sons.len(),
{
    if sons.len() == 0 {
        Seq::empty()
    } else {
        son_entries(o, sons.drop_last()) + son_entry(o, sons.last())
    }
}

/// The whole sitemap for sons listed newest first.
pub open spec fn spec_sitemap_xml(o: Seq<char>, sons: Seq<SitemapSon>) -> Seq<char> {
    let newest = if sons.len() > 0 { spec_lastmod_tag(sons[0].created_at@) } else { Seq::empty() };
    sitemap_head() + static_entries(o, newest) + son_entries(o, sons) + "</urlset>\n"@
}

/// The sitemap's first two entries, the gallery `/` and `/leaderboard`,
/// carry the `<lastmod>` of the first son listed, the newest when sons come
/// newest first as `sitemap_sons` gives them, and none when there are no
/// sons; the sitemap opens with those two entries.
pub proof fn lemma_sitemap_dates_the_gallery_by_the_newest_son(o: Seq<char>, sons: Seq<SitemapSon>)
    ensures
        ({
            let l = if sons.len() > 0 { spec_lastmod_tag(sons[0].created_at@) } else { Seq::empty() };
            let opening = sitemap_head()
                + ("  <url><loc>"@ + o + "/"@ + "</loc>"@ + l
                    + "<changefreq>"@ + "hourly"@ + "</changefreq><priority>"@ + "1.0"@ + "</priority></url>\n"@)
                + ("  <url><loc>"@ + o + "/leaderboard"@ + "</loc>"@ + l
                    + "<changefreq>"@ + "daily"@ + "</changefreq><priority>"@ + "0.5"@ + "</priority></url>\n"@);
            spec_sitemap_xml(o, sons).len() >= opening.len()
                && spec_sitemap_xml(o, sons).take(opening.len() as int) == opening
        }),
{
    let l = if sons.len() > 0 { spec_lastmod_tag(sons[0].created_at@) } else { Seq::empty() };
    lemma_opening_prefix(sitemap_head(),
        static_entry(o, "/"@, l, "hourly"@, "1.0"@),
        static_entry(o, "/leaderboard"@, l, "daily"@, "0.5"@),
        static_entry(o, "/upload"@, Seq::empty(), "monthly"@, "0.3"@),
        static_entry(o, "/privacy"@, Seq::empty(), "yearly"@, "0.1"@),
        static_entry(o, "/tos"@, Seq::empty(), "yearly"@, "0.1"@),
        son_entries(o, sons), "</urlset>\n"@);
}

proof fn lemma_opening_prefix(a: Seq<char>, b: Seq<char>, c: Seq<char>, d: Seq<char>, e: Seq<char>,
    f: Seq<char>, g: Seq<char>, h: Seq<char>)
    ensures
        (a + (b + c + d + e + f) + g + h).len() >= (a + b + c).len(),
        (a + (b + c + d + e + f) + g + h).take((a + b + c).len() as int) == a + b + c,
{
    let x = a + (b + c + d + e + f) + g + h;
    let p = a + b + c;
    assert forall|i: int| 0 <= i < p.len() implies #[trigger] x[i] == p[i] by {
        if i < a.len() {
        } else if i < a.len() + b.len() {
        } else {
        }
    }
    assert(x.take(p.len() as int) =~= p);
}

fn push_static_entry(xml: &mut String, o: &str, path: &str, lastmod: &str, freq: &str, prio: &str)
    ensures
        final(xml)@ == old(xml)@ + static_entry(o@, path@, lastmod@, freq@, prio@),
{
    let ghost start = xml@;
    push_str(xml, "  <url><loc>");
    push_str(xml, o);
    push_str(xml, path);
    push_str(xml, "</loc>");
    push_str(xml, lastmod);
    push_str(xml, "<changefreq>");
    push_str(xml, freq);
    push_str(xml, "</changefreq><priority>");
    push_str(xml, prio);
    push_str(xml, "</priority></url>\n");
    proof { assert(xml@ =~= start + static_entry(o@, path@, lastmod@, freq@, prio@)); }
}

fn push_son_entry(xml: &mut String, o: &str, s: &SitemapSon)
    ensures
        final(xml)@ == old(xml)@ + son_entry(o@, *s),
{
    let ghost start = xml@;
    push_str(xml, "  <url>\n    <loc>");
    push_str(xml, o);
    push_str(xml, "/son/");
    let e = xml_escape(s.id.as_str());
    push_str(xml, e.as_str());
    push_str(xml, "</loc>\n");
    let ghost mid = xml@;
    let tag = lastmod_tag(s.created_at.as_str());
    if !tag.as_str().is_empty() {
        push_str(xml, "    ");
        push_str(xml, tag.as_str());
        push_str(xml, "\n");
    }
    proof {
        if tag@.len() == 0 {
            assert(xml@ =~= mid + Seq::<char>::empty());
        } else {
            assert(xml@ =~= mid + ("    "@ + tag@ + "\n"@));
        }
    }
    push_str(xml, "    <image:image>\n      <image:loc>");
    let e = xml_escape(s.orig_url.as_str());
    push_str(xml, e.as_str());
    push_str(xml, "</image:loc>\n      <image:title>");
    let e = xml_escape(s.title.as_str());
    push_str(xml, e.as_str());
    push_str(xml, "</image:title>\n    </image:image>\n  </url>\n");
    proof { assert(xml@ =~= start + son_entry(o@, *s)); }
}

/// The sitemap, for sons as `sitemap_sons` lists them, newest first.
pub fn sitemap_xml(origin: &str, sons: &[SitemapSon]) -> (r: String)
    ensures
        r@ == spec_sitemap_xml(origin@, sons@),
{
    let newest = if sons.len() > 0 { lastmod_tag(sons[0].created_at.as_str()) } else { String::new() };
    let mut xml = String::new();
    push_str(&mut xml, "<?xml version=\"1.0\" encoding=\"UTF-8\"?>\n<urlset xmlns=\"http://www.sitemaps.org/schemas/sitemap/0.9\" xmlns:image=\"http://www.google.com/schemas/sitemap-image/1.1\">\n");
    let ghost head = xml@;
    push_static_entry(&mut xml, origin, "/", newest.as_str(), "hourly", "1.0");
    push_static_entry(&mut xml, origin, "/leaderboard", newest.as_str(), "daily", "0.5");
    push_static_entry(&mut xml, origin, "/upload", "", "monthly", "0.3");
    push_static_entry(&mut xml, origin, "/privacy", "", "yearly", "0.1");
    push_static_entry(&mut xml, origin, "/tos", "", "yearly", "0.1");
    proof {
        reveal_strlit("");
        assert(""@ =~= Seq::<char>::empty());
        assert(xml@ =~= head + static_entries(origin@, newest@));
    }
    let ghost fixed = xml@;
    let mut i: usize = 0;
    proof { assert(sons@.take(0) =~= Seq::<SitemapSon>::empty()); }
    while i < sons.len()
        invariant
            i <= sons.len(),
            xml@ == fixed + son_entries(origin@, sons@.take(i as int)),
        decreases sons.len() - i,
    {
        proof {
            assert(sons@.take(i as int + 1).drop_last() =~= sons@.take(i as int));
            assert(sons@.take(i as int + 1).last() == sons@[i as int]);
        }
        let ghost before = xml@;
        push_son_entry(&mut xml, origin, &sons[i]);
        proof {
            assert(xml@ =~= fixed + son_entries(origin@, sons@.take(i as int + 1)));
        }
        i = i + 1;
    }
    proof { assert(sons@.take(sons@.len() as int) =~= sons@); }
    push_str(&mut xml, "</urlset>\n");
    xml
}

} // verus!
