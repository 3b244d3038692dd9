use soncollection::links::{anchor_offsets, axum_routes, has_download_attr, href_of, opts_out_of_router, route_serves, without_string_contents};

#[test]
fn multi_line_anchors_are_found() {
    let src = "view! {\n    <a\n        class=\"x\"\n        href=\"/y\"\n    >\n}";
    assert_eq!(anchor_offsets(src).len(), 1, "missed a multi-line anchor");
    assert!(anchor_offsets("<article class=\"x\">").is_empty());
    assert_eq!(anchor_offsets("<a>text</a>").len(), 1);
}

#[test]
fn the_download_attribute_is_told_apart_from_the_word_in_an_href() {
    assert!(has_download_attr(r#"<a download="" href=format!("/son/{}", s.slug)"#));
    assert!(has_download_attr(r#"<a download href="/x""#));
    assert!(!has_download_attr(r#"<a class="icon-btn" href=format!("/son/{}/download", s.slug)"#));
}

#[test]
fn route_matching_is_by_segment_not_by_prefix() {
    assert!(route_serves("/son/{id}/download", "/son/{}/download"));
    assert!(route_serves("/son/{id}/download", "/son/sonny-side-up/download"));
    assert!(!route_serves("/son/{id}/download", "/son/sonny-side-up"));
    assert!(route_serves("/auth/google/login", "/auth/google/login?return_to=/"));
    assert!(!route_serves("/auth/google/login", "/auth/logout"));
}

#[test]
fn anchor_offsets_are_byte_offsets() {
    assert_eq!(anchor_offsets("é <a href=\"/x\">"), vec![3]);
}

#[test]
fn routes_are_read_from_the_router_calls() {
    let main_rs = "Router::new()\n    .route(\"/api/upload\", post(x))\n    .route(\n        \"/son/{id}/download\",\n        get(y),\n    )\n    .route(\"relative\", get(z))";
    assert_eq!(axum_routes(main_rs), vec!["/api/upload".to_string(), "/son/{id}/download".to_string()]);
}

#[test]
fn string_contents_are_blanked_and_hrefs_read() {
    assert_eq!(without_string_contents("<a href=\"/x y\" download>"), "<a href=\"\" download>");
    assert_eq!(href_of("<a class=\"c\" href=format!(\"/son/{}\", s)"), Some("/son/{}".to_string()));
    assert_eq!(href_of("<a href=\"https://x\""), None);
    assert_eq!(href_of("<a class=\"c\""), None);
    assert!(opts_out_of_router("<a rel=\"external\" href=\"/auth/google/login\""));
    assert!(!opts_out_of_router("<a href=\"/auth/google/login\""));
}
