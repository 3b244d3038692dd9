//! One `Cache-Control` decision per route class, in one place, plus which
//! paths must carry `X-Robots-Tag: noindex` and how the two combine with
//! whatever a handler already set on its response.
use vstd::prelude::*;
use crate::text::{chars_of, equals, starts_with, ends_with, starts, ends, find_sub, lemma_find_sub, lemma_find_sub_finds};

verus! {

/// Content-hashed assets: a year, and no revalidation at all.
pub const IMMUTABLE: &'static str = "public, max-age=31536000, s-maxage=31536000, immutable";

/// The `Cache-Control` value for a path.
pub open spec fn spec_cache_control(p: Seq<char>, hashed: bool) -> Seq<char> {
    if starts(p, "/pkg/"@) {
        if hashed { IMMUTABLE@ } else { "no-cache"@ }
    } else if starts(p, "/uploads/"@) {
        "public, max-age=3600"@
    } else if p == "/robots.txt"@ || p == "/llms.txt"@ {
        "public, max-age=3600"@
    } else if p == "/sitemap.xml"@ {
        "public, max-age=600"@
    } else if p == "/oembed"@ || starts(p, "/api/v1/"@) {
        "public, max-age=60"@
    } else if starts(p, "/son/"@) && ends(p, "/download"@) {
        "public, max-age=3600"@
    } else if starts(p, "/admin"@) || starts(p, "/upload"@) || starts(p, "/auth/"@) || starts(p, "/api/"@) {
        "no-store"@
    } else if ends(p, ".png"@) || ends(p, ".ico"@) || ends(p, ".svg"@) || ends(p, ".webp"@) || ends(p, ".woff2"@) {
        "public, max-age=86400"@
    } else {
        "private, no-cache"@
    }
}

/// Without content-hashed filenames nothing is ever `immutable`: a fixed
/// name whose bytes change would otherwise be frozen in browsers with no way
/// to reach them from the origin. With them, exactly the `/pkg/` assets are.
pub proof fn lemma_unhashed_is_never_immutable(p: Seq<char>)
    ensures
        spec_cache_control(p, false) != IMMUTABLE@,
        spec_cache_control(p, true) == IMMUTABLE@ <==> starts(p, "/pkg/"@),
{
    reveal_strlit("public, max-age=31536000, s-maxage=31536000, immutable");
    reveal_strlit("no-cache");
    reveal_strlit("public, max-age=3600");
    reveal_strlit("public, max-age=600");
    reveal_strlit("public, max-age=60");
    reveal_strlit("no-store");
    reveal_strlit("public, max-age=86400");
    reveal_strlit("private, no-cache");
    assert(IMMUTABLE@.len() == 54);
    assert("no-cache"@.len() == 8);
    assert("public, max-age=3600"@.len() == 20);
    assert("public, max-age=600"@.len() == 19);
    assert("public, max-age=60"@.len() == 18);
    assert("no-store"@.len() == 8);
    assert("public, max-age=86400"@.len() == 21);
    assert("private, no-cache"@.len() == 17);
}

/// Whether `s` has no two `m`s in a row, so cannot contain `immutable`.
pub open spec fn no_double_m(s: Seq<char>) -> bool {
    forall|j: int| 0 <= j < s.len() - 1 ==> !(#[trigger] s[j] == 'm' && s[j + 1] == 'm')
}

proof fn lemma_no_immutable_inside(s: Seq<char>)
    requires
        no_double_m(s),
    ensures
        find_sub(s, "immutable"@) is None,
{
    reveal_strlit("immutable");
    lemma_find_sub(s, "immutable"@);
    match find_sub(s, "immutable"@) {
        Some(i) => {
            assert("immutable"@.len() == 9 && "immutable"@[1] == 'm' && "immutable"@[2] == 'm');
            assert(s.subrange(i, i + 9)[1] == s[i + 1]);
            assert(s.subrange(i, i + 9)[2] == s[i + 2]);
            assert(s[i + 1] == 'm' && s[i + 2] == 'm');
            assert(!(s[i + 1] == 'm' && s[i + 1 + 1] == 'm'));
        },
        None => {},
    }
}

/// A path's `Cache-Control` says `immutable` exactly when it is a `/pkg/`
/// asset and filenames are hashed.
pub proof fn lemma_immutable_only_for_hashed_assets(p: Seq<char>, hashed: bool)
    ensures
        (find_sub(spec_cache_control(p, hashed), "immutable"@) is Some) <==> (starts(p, "/pkg/"@) && hashed),
{
    reveal_strlit("immutable");
    reveal_strlit("public, max-age=31536000, s-maxage=31536000, immutable");
    reveal_strlit("no-cache");
    reveal_strlit("public, max-age=3600");
    reveal_strlit("public, max-age=600");
    reveal_strlit("public, max-age=60");
    reveal_strlit("no-store");
    reveal_strlit("public, max-age=86400");
    reveal_strlit("private, no-cache");
    let r = spec_cache_control(p, hashed);
    if starts(p, "/pkg/"@) && hashed {
        let im = IMMUTABLE@;
        assert(im.len() == 54);
        assert(im.subrange(45, 54) =~= "immutable"@);
        lemma_find_sub_finds(im, "immutable"@, 45);
    } else {
        assert(no_double_m(r));
        lemma_no_immutable_inside(r);
    }
}

/// Whether a path must never appear in a search index.
pub open spec fn spec_noindex(p: Seq<char>) -> bool {
    starts(p, "/api/"@) || p == "/oembed"@ || starts(p, "/uploads/"@) || starts(p, "/embed/"@)
        || (starts(p, "/son/"@) && ends(p, "/download"@))
}

/// The class of a path, as a `Cache-Control` value.
///
/// `hashed` is whether asset filenames carry a content hash: only then is
/// `/pkg/` safe to cache forever. Everything not matched by a more specific
/// class is server-rendered HTML, which is `private` because it can carry a
/// signed-in visitor's name.
pub fn cache_control(path: &str, hashed: bool) -> (r: &'static str)
    ensures
        r@ == spec_cache_control(path@, hashed),
{
    let p = chars_of(path);
    if starts_with(&p, "/pkg/") {
        return if hashed { IMMUTABLE } else { "no-cache" };
    }
    if starts_with(&p, "/uploads/") {
        return "public, max-age=3600";
    }
    if equals(&p, "/robots.txt") || equals(&p, "/llms.txt") {
        return "public, max-age=3600";
    }
    if equals(&p, "/sitemap.xml") {
        return "public, max-age=600";
    }
    if equals(&p, "/oembed") || starts_with(&p, "/api/v1/") {
        return "public, max-age=60";
    }
    if starts_with(&p, "/son/") && ends_with(&p, "/download") {
        return "public, max-age=3600";
    }
    if starts_with(&p, "/admin") || starts_with(&p, "/upload") || starts_with(&p, "/auth/")
        || starts_with(&p, "/api/") {
        return "no-store";
    }
    if ends_with(&p, ".png") || ends_with(&p, ".ico") || ends_with(&p, ".svg") || ends_with(&p, ".webp")
        || ends_with(&p, ".woff2") {
        return "public, max-age=86400";
    }
    "private, no-cache"
}

/// Paths that should never appear in a search index: byte-identical copies
/// of images, machine-readable duplicates, and the embed card.
pub fn noindex(path: &str) -> (r: bool)
    ensures
        r == spec_noindex(path@),
{
    let p = chars_of(path);
    starts_with(&p, "/api/") || equals(&p, "/oembed") || starts_with(&p, "/uploads/")
        || starts_with(&p, "/embed/") || (starts_with(&p, "/son/") && ends_with(&p, "/download"))
}

/// What to do to a response's headers once its handler has run.
#[derive(Debug)]
pub struct HeaderPlan {
    /// A `Cache-Control` value to write, replacing any already there.
    pub cache_control: Option<&'static str>,
    /// Whether to add `X-Robots-Tag: noindex`.
    pub robots_noindex: bool,
    /// Whether to add `X-Content-Type-Options: nosniff`.
    pub nosniff: bool,
}

/// Whether a method leaves server state alone, so its response may be kept.
pub open spec fn spec_idempotent(method: Seq<char>) -> bool {
    method == "GET"@ || method == "HEAD"@
}

/// The header policy applied to every response, never overwriting a header
/// a handler set for itself, with two deliberate exceptions: a response to a
/// mutating request, and one that sets a cookie, are never stored.
pub fn header_plan(
    path: &str,
    hashed: bool,
    method: &str,
    sets_cookie: bool,
    has_cache_control: bool,
    has_robots_tag: bool,
    has_nosniff: bool,
) -> (r: HeaderPlan)
    ensures
        !spec_idempotent(method@) || sets_cookie ==> (r.cache_control matches Some(v) && v@ == "no-store"@),
        spec_idempotent(method@) && !sets_cookie && has_cache_control ==> r.cache_control is None,
        spec_idempotent(method@) && !sets_cookie && !has_cache_control ==>
            (r.cache_control matches Some(v) && v@ == spec_cache_control(path@, hashed)),
        r.robots_noindex == (spec_noindex(path@) && !has_robots_tag),
        r.nosniff == !has_nosniff,
{
    let m = chars_of(method);
    let idempotent = equals(&m, "GET") || equals(&m, "HEAD");
    let cc = if !idempotent || sets_cookie {
        Some("no-store")
    } else if !has_cache_control {
        Some(cache_control(path, hashed))
    } else {
        None
    };
    HeaderPlan { cache_control: cc, robots_noindex: noindex(path) && !has_robots_tag, nosniff: !has_nosniff }
}

} // verus!
