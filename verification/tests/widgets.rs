use soncollection::gemini::{
    configured_url, cookies_outcome, endpoint, reason, reason_or_default, retry_reason, screening_status, square_result,
    Health,
};
use soncollection::keeper::{asset_url, keeper_base, relay_action, socket_host, socket_url, Frame, Relay};
use soncollection::models::ScreeningStatus;
use soncollection::widgets::{
    absolute_here, beacon_attr, cookies_reply, cookies_worth_sending, like_click, like_label, like_settle, report_reply,
    screening_view, search_title, share_label, should_search, shows_footer, visibility_words, LikeButton, Loading,
};

#[test]
fn a_like_flips_at_once_and_settles_on_the_servers_count() {
    let b = LikeButton { count: 0, liked: true, busy: false };
    let (shown, before) = like_click(b).unwrap();
    assert_eq!((shown.count, shown.liked, shown.busy), (0, false, true));
    assert!(like_click(shown).is_none());
    let back = like_settle(before, None);
    assert!(back == b);
    let done = like_settle(before, Some((7, true)));
    assert_eq!((done.count, done.liked, done.busy), (7, true, false));
    assert_eq!(like_label(true), "Un-cry over this son");
}

#[test]
fn the_progress_bar_counts_what_is_in_flight() {
    let mut l = Loading::new();
    l.start();
    l.start();
    l.finish();
    assert!(l.active());
    l.finish();
    l.finish();
    assert!(!l.active());
    assert_eq!(l.inflight, 0);
}

#[test]
fn sharing_uses_the_page_url_and_says_what_happened() {
    assert_eq!(absolute_here("/son/x", "https://a.b/"), "https://a.b/son/x");
    assert_eq!(absolute_here("https://c/son/x", "https://a.b"), "https://c/son/x");
    assert_eq!(share_label(false, false, true, true), "Share");
    assert_eq!(share_label(true, false, true, true), "Link copied");
    assert_eq!(share_label(false, false, false, false), "Copying needs a secure connection");
}

#[test]
fn search_and_chrome_wording() {
    assert_eq!(search_title(""), "search \u{2014} son collection");
    assert_eq!(search_title("son"), "\"son\" \u{2014} son collection");
    assert!(!should_search("   "));
    assert!(should_search(" a "));
    assert!(!shows_footer("/"));
    assert!(!shows_footer("/son/x"));
    assert!(shows_footer("/leaderboard"));
    assert_eq!(beacon_attr("t0k"), "{\"token\": \"t0k\"}");
}

#[test]
fn the_admin_page_reads_the_screening_status() {
    let off = screening_view(&ScreeningStatus::default());
    assert_eq!(off.headline, "Off \u{2014} GEMINI_URL is not set. Uploads publish unscreened.");
    let ok = screening_view(&ScreeningStatus { configured: true, usable: 2, initialised: 2, error: None });
    assert_eq!(ok.headline, "Working \u{2014} 2 account(s) answering.");
    let down = screening_view(&ScreeningStatus { configured: true, usable: 0, initialised: 3, error: None });
    assert_eq!(down.headline, "Down");
    assert_eq!(
        down.detail.as_deref(),
        Some("3 account(s) started, none answering \u{2014} the cookies have expired.")
    );
    assert_eq!(down.note.as_deref(), Some("Uploads are being published unscreened."));
    assert!(!cookies_worth_sending(" \n "));
    assert_eq!(cookies_reply(&Ok(2)), "2 account(s) ready");
    assert_eq!(visibility_words(false), ("hidden", "unhide"));
    assert_eq!(report_reply(Some(Err(()))), Some("Didn't send. Try again."));
}

#[test]
fn the_sidecar_is_addressed_and_answered() {
    assert_eq!(configured_url(Some(String::new())), None);
    assert_eq!(configured_url(Some("http://g:8000".into())).as_deref(), Some("http://g:8000"));
    assert_eq!(endpoint("http://g:8000//", "/judge"), "http://g:8000/judge");
    assert_eq!(retry_reason("a", "b").0, "b (first attempt: a)");
    assert_eq!(reason(br#"{"reason":"no accounts"}"#), "no accounts");
    assert_eq!(reason(b"<html>"), "screening failed");
    assert_eq!(reason_or_default(None), "screening failed");
    let s = screening_status(true, Health::Unreachable("timeout".into()));
    assert_eq!(s.error.as_deref(), Some("sidecar unreachable: timeout"));
    let s = screening_status(false, Health::Counts { accounts: 1, initialised: 1 });
    assert!(!s.configured && s.usable == 0);
    assert_eq!(cookies_outcome(false, Ok(1), None, "503 Service Unavailable"), Err("sidecar refused (503 Service Unavailable)".into()));
    assert_eq!(cookies_outcome(true, Ok(4), None, ""), Ok(4));
    assert_eq!(square_result(true, b"junk").err().map(|u| u.0).unwrap_or_default().split(':').next(), Some("sidecar returned undecodable image"));
    assert_eq!(square_result(false, br#"{"reason":"busy"}"#).err().map(|u| u.0).as_deref(), Some("busy"));
}

#[test]
fn the_keeper_window_maps_onto_the_keeper() {
    assert_eq!(keeper_base(None), "http://keeper:6080");
    assert_eq!(asset_url("http://keeper:6080", "//vnc.html"), "http://keeper:6080/vnc.html");
    assert_eq!(socket_url("http://keeper:6080"), "ws://keeper:6080/websockify");
    assert_eq!(socket_url("https://k"), "wss://k/websockify");
    assert_eq!(socket_host("ws://keeper:6080/websockify"), "keeper:6080/websockify");
    assert_eq!(socket_host("nothing"), "keeper:6080");
    assert!(relay_action(Frame::Close) == Relay::Stop);
    assert!(relay_action(Frame::Text) == Relay::Forward);
    assert!(relay_action(Frame::Other) == Relay::Skip);
}
