use soncollection::cache::{cache_control, header_plan, noindex, IMMUTABLE};

#[test]
fn hashed_pkg_assets_are_immutable_and_unhashed_ones_are_not() {
    assert_eq!(cache_control("/pkg/soncollection.abc123.css", true), IMMUTABLE);
    assert_eq!(cache_control("/pkg/soncollection.css", false), "no-cache");
    assert_eq!(cache_control("/pkg/soncollection.wasm", false), "no-cache");
}

#[test]
fn html_is_private_and_never_stored_by_a_shared_cache() {
    for path in ["/", "/son/sonion-powder", "/leaderboard", "/search", "/tos"] {
        assert_eq!(cache_control(path, true), "private, no-cache", "{path}");
    }
}

#[test]
fn identity_and_moderation_routes_are_no_store() {
    for path in [
        "/admin",
        "/admin/browser",
        "/upload",
        "/api/upload",
        "/auth/google/callback",
        "/api/like_son1234",
    ] {
        assert_eq!(cache_control(path, true), "no-store", "{path}");
    }
}

#[test]
fn public_data_routes_are_shareable_but_short_lived() {
    assert_eq!(cache_control("/api/v1/sons", true), "public, max-age=60");
    assert_eq!(cache_control("/oembed", true), "public, max-age=60");
    assert_eq!(cache_control("/sitemap.xml", true), "public, max-age=600");
    assert_eq!(cache_control("/robots.txt", true), "public, max-age=3600");
    assert_eq!(cache_control("/llms.txt", true), "public, max-age=3600");
    assert_eq!(cache_control("/son/sonion-powder/download", true), "public, max-age=3600");
    assert_eq!(cache_control("/uploads/orig/x.png", true), "public, max-age=3600");
}

#[test]
fn the_specific_class_wins_over_the_general_one() {
    assert_eq!(cache_control("/api/v1/sons/x", true), "public, max-age=60");
    assert_eq!(cache_control("/favicon-32.png", true), "public, max-age=86400");
    assert_eq!(cache_control("/apple-touch-icon.png", false), "public, max-age=86400");
    assert_eq!(cache_control("/pkg/logo.svg", false), "no-cache");
}

#[test]
fn noindex_covers_the_duplicates_and_nothing_else() {
    assert!(noindex("/embed/sonion-powder"));
    assert!(noindex("/son/sonion-powder/download"));
    assert!(noindex("/api/v1/sons"));
    assert!(noindex("/oembed"));
    assert!(noindex("/uploads/orig/x.png"));
    assert!(!noindex("/"));
    assert!(!noindex("/son/sonion-powder"));
    assert!(!noindex("/leaderboard"));
}

#[test]
fn a_cookie_or_a_post_is_never_cached() {
    let plan = header_plan("/", true, "POST", false, false, false, false);
    assert_eq!(plan.cache_control, Some("no-store"));
    let plan = header_plan("/son/x", true, "GET", true, true, false, false);
    assert_eq!(plan.cache_control, Some("no-store"));
}

#[test]
fn a_handlers_own_headers_are_kept() {
    let plan = header_plan("/embed/x", true, "GET", false, true, true, true);
    assert_eq!(plan.cache_control, None);
    assert!(!plan.robots_noindex);
    assert!(!plan.nosniff);
    let plan = header_plan("/embed/x", true, "HEAD", false, false, false, false);
    assert_eq!(plan.cache_control, Some("private, no-cache"));
    assert!(plan.robots_noindex);
    assert!(plan.nosniff);
}

#[test]
fn without_hashing_no_path_is_immutable() {
    for path in ["/pkg/soncollection.css", "/pkg/x.wasm", "/", "/uploads/orig/x.png", "/favicon-32.png", "/api/v1/sons"] {
        assert_ne!(cache_control(path, false), IMMUTABLE, "{path}");
    }
    assert_eq!(cache_control("/pkg/soncollection.abc.css", true), IMMUTABLE);
    assert_ne!(cache_control("/favicon-32.png", true), IMMUTABLE);
}

#[test]
fn only_hashed_pkg_assets_say_immutable() {
    for path in ["/pkg/a.css", "/", "/uploads/x.png", "/api/v1/sons", "/robots.txt", "/son/x/download", "/admin", "/logo.svg"] {
        for hashed in [true, false] {
            assert_eq!(
                cache_control(path, hashed).contains("immutable"),
                path.starts_with("/pkg/") && hashed,
                "{path} {hashed}"
            );
        }
    }
}
