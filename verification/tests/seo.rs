use soncollection::seo::{
    absolute, attr_escape, breadcrumb_json_ld, embed_snippet, embed_url_from_page_url, json_escape, site_json_ld,
    w3c_lastmod,
};
use soncollection::seo_route::{lastmod_tag, llms_txt, robots_txt, sitemap_at_cap, sitemap_xml, xml_escape};
use soncollection::db::SitemapSon;

#[test]
fn absolute_url_passes_through_unchanged() {
    assert_eq!(
        absolute("https://media.soncollection.com/orig/x.png", Some("https://soncollection.com")),
        "https://media.soncollection.com/orig/x.png"
    );
}

#[test]
fn absolute_prefixes_the_origin_without_doubling_slashes() {
    assert_eq!(absolute("/son/x", Some("https://soncollection.com/")), "https://soncollection.com/son/x");
    assert_eq!(absolute("/son/x", None), "/son/x");
    assert_eq!(absolute("/son/x", Some("///")), "/son/x");
}

#[test]
fn json_escape_neutralizes_script_close() {
    let escaped = json_escape("</script><script>alert(1)</script>");
    assert!(!escaped.contains("</script>"));
    assert!(escaped.contains("\\u003c/script\\u003e"));
}

#[test]
fn json_escape_handles_quotes_and_backslashes() {
    assert_eq!(json_escape("a \"quote\" and \\backslash"), "a \\\"quote\\\" and \\\\backslash");
}

#[test]
fn attr_escape_covers_the_four_that_break_a_quoted_attribute() {
    assert_eq!(attr_escape("a \"b\" & <c> d"), "a &quot;b&quot; &amp; &lt;c&gt; d");
}

#[test]
fn embed_url_from_an_absolute_son_page() {
    assert_eq!(
        embed_url_from_page_url("https://soncollection.com/son/sonion-powder"),
        Some("https://soncollection.com/embed/sonion-powder".to_string())
    );
}

#[test]
fn embed_url_from_a_relative_son_page() {
    assert_eq!(embed_url_from_page_url("/son/sonion-powder"), Some("/embed/sonion-powder".to_string()));
}

#[test]
fn embed_url_ignores_a_trailing_slash_query_and_fragment() {
    assert_eq!(
        embed_url_from_page_url("http://127.0.0.1:3100/son/abc-123/"),
        Some("http://127.0.0.1:3100/embed/abc-123".to_string())
    );
    assert_eq!(
        embed_url_from_page_url("https://soncollection.com/son/abc-123?utm=x#top"),
        Some("https://soncollection.com/embed/abc-123".to_string())
    );
}

#[test]
fn embed_url_rejects_anything_that_is_not_a_son_page() {
    assert_eq!(embed_url_from_page_url("/upload"), None);
    assert_eq!(embed_url_from_page_url("https://soncollection.com/upload"), None);
    assert_eq!(embed_url_from_page_url("https://soncollection.com/son/"), None);
    assert_eq!(embed_url_from_page_url("https://soncollection.com"), None);
    assert_eq!(embed_url_from_page_url("/son/a/b"), None);
}

#[test]
fn embed_snippet_cannot_be_broken_out_of() {
    let html = embed_snippet("https://soncollection.com/embed/x", "a \"son\"</iframe><script>alert(1)</script>");
    assert!(!html.contains("</iframe><script>"));
    assert!(html.contains("&quot;son&quot;&lt;/iframe&gt;"));
    assert_eq!(html.matches("</iframe>").count(), 1);
}

#[test]
fn embed_snippet_is_the_default_size() {
    let html = embed_snippet("https://soncollection.com/embed/x", "Sonion Powder");
    assert!(html.contains("width=\"480\" height=\"524\""));
    assert!(html.contains("src=\"https://soncollection.com/embed/x\""));
    assert!(!html.contains("frameborder"));
}

#[test]
fn lastmod_truncates_rfc3339_fractional_seconds() {
    assert_eq!(
        w3c_lastmod("2026-08-12T00:15:42.835017700+00:00").as_deref(),
        Some("2026-08-12T00:15:42+00:00")
    );
    assert_eq!(w3c_lastmod("2026-08-12T00:15:42.835Z").as_deref(), Some("2026-08-12T00:15:42Z"));
    assert_eq!(w3c_lastmod("2026-08-12T00:15:42Z").as_deref(), Some("2026-08-12T00:15:42Z"));
}

#[test]
fn lastmod_converts_the_legacy_sqlite_form() {
    assert_eq!(w3c_lastmod("2025-01-09 13:04:55").as_deref(), Some("2025-01-09T13:04:55Z"));
}

#[test]
fn lastmod_accepts_a_bare_date() {
    assert_eq!(w3c_lastmod("2025-01-09").as_deref(), Some("2025-01-09"));
}

#[test]
fn lastmod_rejects_rather_than_guessing() {
    assert_eq!(w3c_lastmod(""), None);
    assert_eq!(w3c_lastmod("not a date"), None);
    assert_eq!(w3c_lastmod("09/01/2025"), None);
    assert_eq!(w3c_lastmod("2025-01-09X13:04:55"), None);
    assert_eq!(w3c_lastmod("2025-01-09 13:04"), None);
    assert_eq!(w3c_lastmod("2025-01-09 13:04:55+0100"), None);
    assert_eq!(w3c_lastmod("2025-01-09 13:04:55."), None);
}

#[test]
fn site_json_ld_carries_the_search_action() {
    let json = site_json_ld("https://soncollection.com/");
    assert!(json.contains("\"url\":\"https://soncollection.com/\""));
    assert!(json.contains("https://soncollection.com/search?q={search_term_string}"));
    assert!(json.contains("required name=search_term_string"));
}

#[test]
fn breadcrumb_json_ld_escapes_a_hostile_title() {
    let json = breadcrumb_json_ld("</script>x", "https://soncollection.com/son/x", None);
    assert!(!json.contains("</script>"));
    assert!(json.contains("\"position\":2"));
}

#[test]
fn xml_escape_covers_the_five_predefined_entities() {
    assert_eq!(
        xml_escape("<Capri & Son> \"quoted\" 'son'"),
        "&lt;Capri &amp; Son&gt; &quot;quoted&quot; &apos;son&apos;"
    );
}

#[test]
fn lastmod_tag_is_empty_rather_than_invalid() {
    assert_eq!(
        lastmod_tag("2026-08-12T00:15:42.835017700+00:00"),
        "<lastmod>2026-08-12T00:15:42+00:00</lastmod>"
    );
    assert_eq!(lastmod_tag("2025-01-09 13:04:55"), "<lastmod>2025-01-09T13:04:55Z</lastmod>");
    assert_eq!(lastmod_tag(""), "");
    assert_eq!(lastmod_tag("whenever"), "");
}

#[test]
fn robots_disallows_the_private_paths_and_points_at_the_sitemap() {
    let body = robots_txt("https://soncollection.com");
    assert!(body.starts_with("User-agent: *\nAllow: /\n"));
    assert!(body.contains("Disallow: /son/*/download\n"));
    assert!(!body.contains("Disallow: /embed"));
    assert!(body.ends_with("Sitemap: https://soncollection.com/sitemap.xml\n"));
}

#[test]
fn llms_txt_names_the_api_under_the_origin() {
    let body = llms_txt("https://soncollection.com");
    assert!(body.starts_with("# son collection\n"));
    assert!(body.contains("- `GET https://soncollection.com/api/v1/sons` -- paginated JSON list of public sons\n"));
}

#[test]
fn sitemap_lists_fixed_pages_then_each_son_with_its_image() {
    let sons = vec![SitemapSon {
        id: "a&b".into(),
        title: "<Son>".into(),
        orig_url: "https://m/x.png".into(),
        created_at: "2025-01-09 13:04:55".into(),
    }];
    let xml = sitemap_xml("https://s", &sons);
    assert!(xml.starts_with("<?xml version=\"1.0\" encoding=\"UTF-8\"?>\n<urlset"));
    assert!(xml.contains(
        "  <url><loc>https://s/</loc><lastmod>2025-01-09T13:04:55Z</lastmod><changefreq>hourly</changefreq><priority>1.0</priority></url>\n"
    ));
    assert!(xml.contains(
        "  <url><loc>https://s/tos</loc><changefreq>yearly</changefreq><priority>0.1</priority></url>\n"
    ));
    assert!(xml.contains("<loc>https://s/son/a&amp;b</loc>"));
    assert!(xml.contains("<image:title>&lt;Son&gt;</image:title>"));
    assert!(xml.ends_with("</urlset>\n"));
    let empty = sitemap_xml("https://s", &[]);
    assert!(empty.contains("<url><loc>https://s/</loc><changefreq>"));
    assert!(sitemap_at_cap(45_000));
    assert!(!sitemap_at_cap(44_999));
}

/// One left-to-right pass turning the four entities back into characters.
fn unescape_attr(t: &str) -> String {
    let mut out = String::new();
    let mut rest = t;
    while !rest.is_empty() {
        let mut done = false;
        for (ent, c) in [("&amp;", '&'), ("&lt;", '<'), ("&gt;", '>'), ("&quot;", '"')] {
            if let Some(r) = rest.strip_prefix(ent) {
                out.push(c);
                rest = r;
                done = true;
                break;
            }
        }
        if !done {
            let c = rest.chars().next().unwrap();
            out.push(c);
            rest = &rest[c.len_utf8()..];
        }
    }
    out
}

#[test]
fn attribute_escaping_reads_back() {
    assert_eq!(attr_escape("a \"b\" & <c> d"), "a &quot;b&quot; &amp; &lt;c&gt; d");
    for s in ["", "&amp;", "&&lt;", "\"<>&", "plain é text", "&quot"] {
        assert_eq!(unescape_attr(&attr_escape(s)), s);
    }
}

#[test]
fn json_escaping_leaves_no_ampersand_or_control_character() {
    let e = json_escape("a&b\u{1}c\u{1f}</script>");
    assert!(!e.contains('&'));
    assert!(e.chars().all(|c| c as u32 >= 0x20));
    assert!(e.contains("\\u0001") && e.contains("\\u001f") && e.contains("\\u003c/script\\u003e"));
}

#[test]
fn a_normalised_lastmod_is_already_normal() {
    for raw in ["2026-08-12", " 2026-08-12T10:11:12.345Z ", "2026-08-12 10:11:12+02:00", "2026-08-12T10:11:12"] {
        let d = w3c_lastmod(raw).expect("normalises");
        assert_eq!(w3c_lastmod(&d), Some(d.clone()), "{raw}");
    }
}

#[test]
fn json_escaping_reads_back_through_a_json_parser() {
    let s = "quote \" slash \\ nl \n cr \r tab \t ctl \u{1}\u{1f} <b>&amp; é 🥤";
    let literal = format!("\"{}\"", json_escape(s));
    let back: String = serde_json::from_str(&literal).unwrap();
    assert_eq!(back, s);
    assert_eq!(json_escape("\u{1}\u{1f}"), "\\u0001\\u001f");
}
