use soncollection::models::{Son, Uploader};
use soncollection::public_route::{
    card_width, content_disposition, embed_document, embed_gone_page, embed_page, extract_son_ref, filename_for,
    oembed_response, oembed_target, site_origin_from, OEmbedQuery, OEmbedRefusal,
};

#[test]
fn extracts_id_from_a_normal_url() {
    assert_eq!(
        extract_son_ref("https://soncollection.com/son/abc-123"),
        Some(("abc-123".to_string(), false))
    );
}

#[test]
fn extracts_id_with_trailing_slash() {
    assert_eq!(
        extract_son_ref("https://soncollection.com/son/abc-123/"),
        Some(("abc-123".to_string(), false))
    );
}

#[test]
fn extracts_id_from_an_embed_url_and_flags_it() {
    assert_eq!(
        extract_son_ref("https://soncollection.com/embed/abc-123"),
        Some(("abc-123".to_string(), true))
    );
    assert_eq!(
        extract_son_ref("http://127.0.0.1:3100/embed/abc-123/"),
        Some(("abc-123".to_string(), true))
    );
}

#[test]
fn rejects_urls_that_are_not_a_son_page() {
    assert_eq!(extract_son_ref("https://soncollection.com/upload"), None);
    assert_eq!(extract_son_ref("https://evil.example/son/"), None);
    assert_eq!(extract_son_ref("https://soncollection.com/embed/"), None);
    assert_eq!(extract_son_ref("https://soncollection.com/"), None);
}

#[test]
fn embed_document_is_self_contained_and_noindex() {
    let html = embed_document("Sonion Powder", "<div class=\"se-miss\">x</div>");
    assert!(html.contains("<meta name=\"robots\" content=\"noindex, follow\">"));
    assert!(!html.contains("rel=\"canonical\""));
    assert!(!html.contains("soncollection.css"));
    assert!(html.contains(".se-img{flex:1 1 auto;min-height:0"));
}

#[test]
fn embed_document_escapes_a_hostile_title() {
    let html = embed_document("</title><script>alert(1)</script>", "");
    assert!(!html.contains("<script>"));
    assert!(html.contains("&lt;/title&gt;"));
}

#[test]
fn filename_strips_unsafe_characters() {
    assert_eq!(filename_for("Capri/Son: the *best*"), "Capri_Son_ the _best_.png");
    assert_eq!(filename_for("   "), "son.png");
}

fn son(width: u32, height: u32) -> Son {
    Son {
        id: "id-1".to_string(),
        slug: "sonion-powder".to_string(),
        title: "Sonion \"Powder\"".to_string(),
        orig_url: "https://media.example/orig/id-1.png".to_string(),
        thumb_url: "https://media.example/thumb/id-1.jpg".to_string(),
        width,
        height,
        created_at: "2026-08-12T00:15:42+00:00".to_string(),
        is_public: true,
        reports: 0,
        likes: 3,
        liked_by_me: false,
        uploader: Some(Uploader { display_name: "Ann".to_string(), avatar_url: None }),
    }
}

#[test]
fn filename_keeps_letters_beyond_ascii() {
    assert_eq!(filename_for("Sönnchen?"), "Sönnchen_.png");
    assert_eq!(content_disposition("a/b"), "attachment; filename=\"a_b.png\"");
}

#[test]
fn embed_card_links_by_slug_and_offers_the_thumbnail() {
    let page = embed_page(&son(1024, 1024), 480, "https://soncollection.com");
    assert!(page.contains("href=\"https://soncollection.com/son/sonion-powder\""));
    assert!(page.contains(" 480w, "));
    assert!(page.contains("alt=\"Sonion &quot;Powder&quot;\""));
    let small = embed_page(&son(300, 300), 480, "https://soncollection.com");
    assert!(!small.contains("srcset"));
}

#[test]
fn a_gone_son_gets_a_styled_miss() {
    let page = embed_gone_page("This son is no longer here.");
    assert!(page.contains("<div class=\"se-miss\">This son is no longer here.</div>"));
    assert!(page.contains("<title>Not found"));
}

#[test]
fn oembed_refuses_other_formats_before_parsing_the_url() {
    let q = OEmbedQuery { url: "nonsense".into(), format: Some("xml".into()), maxwidth: None, maxheight: None };
    assert!(matches!(oembed_target(&q), Err(OEmbedRefusal::NotImplemented)));
    assert_eq!(OEmbedRefusal::NotImplemented.message(), "only format=json is supported");
    let q = OEmbedQuery { url: "nonsense".into(), format: Some("json".into()), maxwidth: None, maxheight: None };
    assert!(matches!(oembed_target(&q), Err(OEmbedRefusal::BadRequest)));
    let q = OEmbedQuery { url: "https://x/embed/abc".into(), format: None, maxwidth: None, maxheight: None };
    assert_eq!(oembed_target(&q).ok(), Some(("abc".to_string(), true)));
}

#[test]
fn oembed_card_width_respects_bounds_with_a_floor() {
    assert_eq!(card_width(None, None), 480);
    assert_eq!(card_width(Some(300), None), 300);
    assert_eq!(card_width(None, Some(344)), 300);
    assert_eq!(card_width(Some(10), None), 120);
    assert_eq!(card_width(None, Some(20)), 120);
    assert_eq!(card_width(Some(9999), Some(9999)), 480);
}

#[test]
fn oembed_photo_serves_the_thumbnail_only_when_asked_small() {
    let s = son(1024, 1024);
    let r = oembed_response(&s, false, Some(400), None, (480, 480), "https://soncollection.com", None);
    assert_eq!(r.kind, "photo");
    assert_eq!(r.url.as_deref(), Some("https://media.example/thumb/id-1.jpg"));
    assert_eq!((r.width, r.height), (480, 480));
    let r = oembed_response(&s, false, None, None, (480, 480), "https://soncollection.com", None);
    assert_eq!(r.url.as_deref(), Some("https://media.example/orig/id-1.png"));
    assert_eq!((r.width, r.height), (1024, 1024));
    assert_eq!(r.author_name.as_deref(), Some("Ann"));
    assert_eq!(r.thumbnail_width, Some(480));
    let r = oembed_response(&s, false, None, None, (0, 0), "https://soncollection.com", None);
    assert!(r.thumbnail_url.is_none() && r.thumbnail_width.is_none() && r.thumbnail_height.is_none());
}

#[test]
fn oembed_rich_is_an_iframe_whose_height_follows_its_width() {
    let s = son(1024, 1024);
    let r = oembed_response(&s, true, Some(300), None, (480, 480), "https://soncollection.com",
        Some("https://soncollection.com/"));
    assert_eq!(r.kind, "rich");
    assert_eq!((r.width, r.height), (300, 344));
    let html = r.html.unwrap();
    assert!(html.contains("src=\"https://soncollection.com/embed/sonion-powder\""));
    assert!(html.contains("width=\"300\" height=\"344\""));
    assert!(r.url.is_none());
}

#[test]
fn site_origin_falls_back_to_the_local_address() {
    assert_eq!(site_origin_from(None), "http://127.0.0.1:3100");
    assert_eq!(site_origin_from(Some("https://a.b".into())), "https://a.b");
}
