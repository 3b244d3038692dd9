use soncollection::db::{
    bounds, decode_az_cursor, decode_liked_cursor, encode_cursor, fts_query, group_reports, mark_liked, paginate,
    public_after_reports, slugify, son_slug, toggle_outcome, Bounds, NewSon, ReportRow, AUTO_HIDE_REPORTS,
};
use soncollection::d1::{endpoint, failure_message, not_set, D1Error};
use soncollection::models::{Son, Sort, PAGE_SIZE};
use soncollection::number::parse_i64;

fn son(id: &str, title: &str, likes: i64) -> Son {
    Son {
        id: id.to_string(),
        slug: id.to_string(),
        title: title.to_string(),
        orig_url: String::new(),
        thumb_url: String::new(),
        width: 1,
        height: 1,
        created_at: format!("2026-08-12T00:00:{id}Z"),
        is_public: true,
        reports: 0,
        likes,
        liked_by_me: false,
        uploader: None,
    }
}

#[test]
fn cursors_carry_the_whole_sort_key() {
    let s = son("07", "Capri|Son", -5);
    assert_eq!(encode_cursor(&s, Sort::Newest), "2026-08-12T00:00:07Z");
    assert_eq!(encode_cursor(&s, Sort::MostLiked), "-5|2026-08-12T00:00:07Z");
    assert_eq!(encode_cursor(&s, Sort::Az), "Capri|Son\u{0}07");
}

#[test]
fn cursors_read_back_what_they_wrote() {
    let s = son("07", "Capri|Son", 42);
    assert_eq!(decode_liked_cursor(&encode_cursor(&s, Sort::MostLiked)), (42, s.created_at.clone()));
    assert_eq!(decode_az_cursor(&encode_cursor(&s, Sort::Az)), ("Capri|Son".to_string(), "07".to_string()));
    let s = son("08", "x", i64::MIN);
    assert_eq!(decode_liked_cursor(&encode_cursor(&s, Sort::MostLiked)).0, i64::MIN);
}

#[test]
fn a_malformed_cursor_starts_from_the_top() {
    assert_eq!(decode_liked_cursor("garbage"), (i64::MAX, String::new()));
    assert_eq!(decode_liked_cursor("lots|2026"), (i64::MAX, "2026".to_string()));
    assert_eq!(decode_az_cursor("no separator"), (String::new(), String::new()));
}

#[test]
fn integers_parse_as_str_parse_does() {
    let cases = ["0", "-0", "+7", "-9223372036854775808", "9223372036854775807", "9223372036854775808", "", "-",
        "+", "1 ", " 1", "12a", "--1", "+-1", "00042", "99999999999999999999999"];
    for c in cases {
        let chars: Vec<char> = c.chars().collect();
        assert_eq!(parse_i64(&chars), c.parse::<i64>().ok(), "{c:?}");
    }
}

#[test]
fn bounds_decode_the_cursor_for_each_ordering() {
    match bounds(None, Sort::MostLiked) {
        Bounds::MostLiked { active, likes, created } => {
            assert!(!active);
            assert_eq!(likes, i64::MAX);
            assert!(created.is_empty());
        }
        _ => panic!("wrong ordering"),
    }
    match bounds(Some("3|2026"), Sort::MostLiked) {
        Bounds::MostLiked { active, likes, created } => {
            assert!(active);
            assert_eq!((likes, created.as_str()), (3, "2026"));
        }
        _ => panic!("wrong ordering"),
    }
    match bounds(Some("t\u{0}i"), Sort::Az) {
        Bounds::Az { active, title, id } => assert!(active && title == "t" && id == "i"),
        _ => panic!("wrong ordering"),
    }
    match bounds(Some("c"), Sort::Newest) {
        Bounds::Newest { before } => assert_eq!(before.as_deref(), Some("c")),
        _ => panic!("wrong ordering"),
    }
}

#[test]
fn a_page_keeps_one_extra_row_only_as_a_signal() {
    let rows: Vec<Son> = (0..=PAGE_SIZE).map(|i| son(&format!("{i:02}"), "t", i)).collect();
    let page = paginate(rows, Sort::Newest);
    assert_eq!(page.sons.len() as i64, PAGE_SIZE);
    assert_eq!(page.next_cursor.as_deref(), Some("2026-08-12T00:00:23Z"));
    let rows: Vec<Son> = (0..3).map(|i| son(&format!("{i:02}"), "t", i)).collect();
    let page = paginate(rows, Sort::MostLiked);
    assert_eq!(page.sons.len(), 3);
    assert!(page.next_cursor.is_none());
}

#[test]
fn liked_marks_follow_the_visitors_likes() {
    let mut sons = vec![son("a", "t", 0), son("b", "t", 0)];
    mark_liked(&mut sons, &["b".to_string()]);
    assert!(!sons[0].liked_by_me);
    assert!(sons[1].liked_by_me);
}

#[test]
fn reports_are_grouped_under_their_son_in_order() {
    let row = |son: &str, reason: &str| ReportRow {
        son_id: son.to_string(),
        reason: reason.to_string(),
        message: None,
        created_at: String::new(),
    };
    let rows = vec![row("b", "spam"), row("a", "porn"), row("b", "stolen")];
    let flagged = group_reports(vec![son("a", "t", 0), son("b", "t", 0), son("c", "t", 0)], &rows);
    assert_eq!(flagged.len(), 3);
    assert_eq!(flagged[0].reports.iter().map(|r| r.reason.as_str()).collect::<Vec<_>>(), vec!["porn"]);
    assert_eq!(flagged[1].reports.iter().map(|r| r.reason.as_str()).collect::<Vec<_>>(), vec!["spam", "stolen"]);
    assert!(flagged[2].reports.is_empty());
    let twice = group_reports(vec![son("b", "t", 0), son("b", "t", 0)], &rows);
    assert_eq!(twice[0].reports.len(), 2);
    assert!(twice[1].reports.is_empty());
}

#[test]
fn the_third_report_hides_a_son() {
    assert_eq!(AUTO_HIDE_REPORTS, 3);
    assert!(public_after_reports(2, true));
    assert!(!public_after_reports(3, true));
    assert!(!public_after_reports(1, false));
}

#[test]
fn slugs_are_lowercase_ascii_with_single_dashes() {
    assert_eq!(slugify("Capri Sun!! Son"), "capri-sun-son");
    assert_eq!(slugify("  --Hello--World--  "), "hello-world");
    assert_eq!(slugify("Ünïcode"), "n-code");
    assert_eq!(slugify("!!!"), "tag");
    assert_eq!(slugify(""), "tag");
}

#[test]
fn search_terms_are_quoted_so_nothing_is_syntax() {
    assert_eq!(fts_query("what the"), "\"what\" \"the\"");
    assert_eq!(fts_query("  a\"b  -c*  "), "\"a\"\"b\" \"-c*\"");
    assert_eq!(fts_query("   "), "");
    assert_eq!(fts_query("tab\there"), "\"tab\" \"here\"");
}

#[test]
fn a_toggle_reports_the_recount() {
    assert_eq!(toggle_outcome(true, Some(4)), (4, true));
    assert_eq!(toggle_outcome(false, None), (0, false));
}

#[test]
fn a_recorded_son_starts_unliked_and_unreported() {
    let s = NewSon {
        id: "i".into(),
        slug: "s".into(),
        is_public: false,
        title: "t".into(),
        orig_url: "o".into(),
        thumb_url: "th".into(),
        width: 2,
        height: 3,
        content_hash: "h".into(),
        uploader_id: None,
        uploader: None,
    }
    .recorded("2026".into());
    assert_eq!((s.likes, s.reports, s.liked_by_me, s.is_public), (0, 0, false, false));
    assert_eq!(s.created_at, "2026");
}

#[test]
fn d1_errors_are_listed_or_called_unknown() {
    assert_eq!(endpoint("acc", "db"), "https://api.cloudflare.com/client/v4/accounts/acc/d1/database/db/query");
    assert_eq!(failure_message(&[]), "D1 query failed: unknown error");
    let errs = [D1Error { code: 7500, message: "no such table".into() }, D1Error { code: -1, message: "x".into() }];
    assert_eq!(failure_message(&errs), "D1 query failed: [7500] no such table; [-1] x");
    assert_eq!(not_set("CF_ACCOUNT_ID"), "CF_ACCOUNT_ID is not set");
}

#[test]
fn a_son_slug_is_its_title_unless_taken_or_empty() {
    assert_eq!(son_slug("Sonion Powder", "id-1", false), "sonion-powder");
    assert_eq!(son_slug("Sonion Powder", "id-1", true), "id-1");
    assert_eq!(son_slug("!!!", "id-2", false), "id-2");
    assert_eq!(son_slug("Tag", "id-3", false), "tag");
}

#[test]
fn slugging_a_slug_changes_nothing() {
    for name in ["  Capri  Son!! ", "Ünïcode", "!!!", "a--b", "Dr. Pepper 2000"] {
        let s = slugify(name);
        assert_eq!(slugify(&s), s);
    }
    assert_eq!(slugify("  Capri  Son!! "), "capri-son");
}
