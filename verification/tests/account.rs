use soncollection::account::{
    clean_report_message, initial, like_outcome, require_admin, sign_in_href, urlencode, visible_son, LikeOutcome,
};
use soncollection::models::{Son, User};

#[test]
fn sign_in_returns_to_the_page_encoded() {
    assert_eq!(sign_in_href("/son/a b?x=1&y"), "/auth/google/login?return_to=/son/a%20b%3Fx%3D1%26y");
    assert_eq!(urlencode("/ok-_.~"), "/ok-_.~");
    assert_eq!(urlencode("é—"), "%C3%A9%E2%80%94");
    assert_eq!(urlencode("\u{1F62D}"), "%F0%9F%98%AD");
    assert_eq!(urlencode("\u{7f}"), "%7F");
    assert_eq!(sign_in_href("/son/x?a=1#b"), "/auth/google/login?return_to=/son/x%3Fa%3D1%23b");
}

#[test]
fn an_initial_is_the_first_letter_upper_cased() {
    assert_eq!(initial("ann"), "A");
    assert_eq!(initial("ßig"), "SS");
    assert_eq!(initial(""), "?");
}

#[test]
fn likes_and_reports_need_a_signed_in_visitor() {
    assert!(like_outcome(false, (1, true)) == LikeOutcome::SignInRequired);
    assert!(like_outcome(true, (1, true)) == LikeOutcome::Toggled { count: 1, liked: true });
    assert_eq!(clean_report_message(Some("  hi  ".into())).as_deref(), Some("hi"));
    assert_eq!(clean_report_message(Some("   ".into())), None);
    assert_eq!(clean_report_message(None), None);
}

fn user(admin: bool) -> User {
    User { id: "u".into(), display_name: "Ann".into(), avatar_url: None, is_admin: admin }
}

#[test]
fn only_admins_pass_the_gate() {
    assert!(require_admin(Some(user(true))).is_ok());
    assert_eq!(require_admin(Some(user(false))).unwrap_err(), "admin access required");
    assert_eq!(require_admin(None).unwrap_err(), "admin access required");
}

#[test]
fn hidden_sons_do_not_exist_for_the_api() {
    let s = Son {
        id: "i".into(),
        slug: "s".into(),
        title: "t".into(),
        orig_url: String::new(),
        thumb_url: String::new(),
        width: 1,
        height: 1,
        created_at: String::new(),
        is_public: false,
        reports: 3,
        likes: 0,
        liked_by_me: false,
        uploader: None,
    };
    assert!(visible_son(Some(s.clone())).is_none());
    let mut p = s;
    p.is_public = true;
    assert!(visible_son(Some(p)).is_some());
    assert!(visible_son(None).is_none());
}

fn form_decode(v: &str) -> String {
    let b = v.as_bytes();
    let mut out: Vec<u8> = Vec::new();
    let mut i = 0;
    while i < b.len() {
        if b[i] == b'%' && i + 2 < b.len() {
            let h = std::str::from_utf8(&b[i + 1..i + 3]).unwrap();
            out.push(u8::from_str_radix(h, 16).unwrap());
            i += 3;
        } else if b[i] == b'+' {
            out.push(b' ');
            i += 1;
        } else {
            out.push(b[i]);
            i += 1;
        }
    }
    String::from_utf8(out).unwrap()
}

#[test]
fn a_sign_in_link_decodes_back_to_the_page() {
    for page in ["/son/x?a=1#b", "/son/é—🥤", "/a b+c&d=e", "/"] {
        let href = sign_in_href(page);
        let value = href.strip_prefix("/auth/google/login?return_to=").unwrap();
        assert!(!value.contains('?') && !value.contains('&') && !value.contains('#'));
        assert_eq!(form_decode(value), page);
    }
}
