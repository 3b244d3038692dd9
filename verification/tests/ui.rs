use soncollection::detail::{describe, detail_meta, image_object_json_ld, pretty_date, swipe_down, swipe_move, swipe_up, translate_x, Side, Swipe};
use soncollection::gallery::{
    aspect_ratio, byline, label_for, line_width, more_sons, on_key, stagger, Density, Feed, GalleryView, Menu,
};
use soncollection::models::{ReportReason, Son, SonPage, Sort, Step, Uploader};
use soncollection::upload::{band, phase};
use soncollection::widgets::{count_unit, rank_class, row_class};

#[test]
fn stagger_clamps_instead_of_wrapping() {
    let last = stagger(7);
    assert_eq!(last, "[animation-delay:280ms]");
    for i in [8, 9, 23, 100, usize::MAX] {
        assert_eq!(stagger(i), last, "index {i} should hold at the last step");
    }
}

#[test]
fn every_step_before_the_clamp_is_distinct() {
    let steps: Vec<&str> = (0..8).map(stagger).collect();
    let mut sorted = steps.clone();
    sorted.sort_unstable();
    sorted.dedup();
    assert_eq!(sorted.len(), steps.len(), "duplicate delay in {steps:?}");
}

#[test]
fn every_step_is_a_whole_arbitrary_value_class() {
    for i in 0..8 {
        let s = stagger(i);
        assert!(s.starts_with("[animation-delay:") && s.ends_with("ms]"), "{s:?} is not a whole arbitrary-value class");
    }
}

#[test]
fn skeleton_lines_narrow_then_hold() {
    assert_eq!(line_width(0), "w-full");
    assert_eq!(line_width(3), "w-2/3");
    assert_eq!(line_width(40), "w-2/3");
    assert_eq!(Density::default().grid_class(), Density::Cozy.grid_class());
    assert!(Density::Compact.grid_class().contains("grid-cols-3"));
}

#[test]
fn formats_an_iso_date() {
    assert_eq!(pretty_date("2026-08-12"), "Aug 12, 2026");
}

#[test]
fn drops_the_leading_zero_from_the_day() {
    assert_eq!(pretty_date("2026-08-05"), "Aug 5, 2026");
}

#[test]
fn handles_both_ends_of_the_year() {
    assert_eq!(pretty_date("2024-01-01"), "Jan 1, 2024");
    assert_eq!(pretty_date("2024-12-31"), "Dec 31, 2024");
}

#[test]
fn anything_unexpected_falls_back_to_the_input() {
    for raw in ["", "not-a-date", "2026-13-01", "2026-00-01", "26-08-12", "2026-08", "2026-08-12-01", "2026-aa-12"] {
        assert_eq!(pretty_date(raw), raw, "expected {raw:?} to pass through unchanged");
    }
}

#[test]
fn only_a_yyyy_mm_dd_date_is_rewritten() {
    for raw in ["abcd-08-05", "2026-+8-05", "2026-8-05", "2026-08-5", "20é6-08-05", "02026-08-05"] {
        assert_eq!(pretty_date(raw), raw, "expected {raw:?} to pass through unchanged");
    }
    assert_eq!(pretty_date("0999-10-09"), "Oct 9, 0999");
}

#[test]
fn the_podium_has_three_distinct_tiers() {
    let first = rank_class(1);
    let second = rank_class(2);
    let rest = rank_class(4);
    assert_eq!(rank_class(3), second, "3rd shares 2nd's tier");
    assert_ne!(first, second);
    assert_ne!(second, rest);
    assert_ne!(first, rest);
    for r in [5, 10, 999] {
        assert_eq!(rank_class(r), rest, "rank {r} should be the quiet tier");
    }
}

#[test]
fn the_podium_is_marked_by_weight_as_well_as_hue() {
    assert!(rank_class(1).contains("font-semibold"));
    assert!(rank_class(2).contains("font-semibold"));
    assert!(rank_class(3).contains("font-semibold"));
    assert!(!rank_class(4).contains("font-semibold"));
}

#[test]
fn only_first_place_gets_the_warm_row() {
    let winner = row_class(1);
    let plain = row_class(2);
    assert_ne!(winner, plain);
    for r in [2, 3, 4, 50] {
        assert_eq!(row_class(r), plain);
    }
}

#[test]
fn both_row_variants_keep_identical_geometry() {
    let geometry = |s: &str| {
        s.split_whitespace()
            .filter(|c| !c.starts_with("border-") || *c == "border")
            .filter(|c| !c.starts_with("bg-"))
            .map(str::to_string)
            .collect::<Vec<_>>()
    };
    assert_eq!(geometry(row_class(1)), geometry(row_class(2)));
}

#[test]
fn one_son_is_singular() {
    assert_eq!(count_unit(1), "son");
    assert_eq!(count_unit(0), "sons");
    assert_eq!(count_unit(2), "sons");
}

const ALL_STEPS: [Step; 6] =
    [Step::Receiving, Step::Fingerprinting, Step::Scanning, Step::Regenerating, Step::Cropping, Step::Storing];

#[test]
fn bands_tile_the_bar_without_gaps_or_overlap() {
    let mut floor = 0.0;
    for step in ALL_STEPS {
        let (start, ceiling, tau) = band(step);
        let (start, ceiling, tau) = (f64::from(start) / 100.0, f64::from(ceiling) / 100.0, f64::from(tau));
        assert_eq!(start, floor, "{step:?} does not start where the last ended");
        assert!(ceiling > start, "{step:?} has no room to move");
        assert!(tau > 0.0, "{step:?} would divide by zero at the first poll");
        floor = ceiling;
    }
    assert!(floor < 1.0, "the pipeline can reach 100% before it finishes");
}

#[test]
fn the_fill_always_moves_and_never_leaves_its_band() {
    for step in ALL_STEPS {
        let (start, ceiling, tau) = band(step);
        let (start, ceiling, tau) = (f64::from(start) / 100.0, f64::from(ceiling) / 100.0, f64::from(tau));
        let at = |t: u32| start + (ceiling - start) * f64::from(t) / (f64::from(t) + tau);
        assert_eq!(at(0), start);
        for t in 1..10_000u32 {
            assert!(at(t) > at(t - 1), "{step:?} stalled at poll {t}");
            assert!(at(t) < ceiling, "{step:?} overran its band at poll {t}");
        }
    }
}

#[test]
fn every_step_reports_one_of_three_words() {
    for step in ALL_STEPS {
        assert!(["Uploading", "Working", "Saving"].contains(&phase(step)), "{step:?} invented a fourth word");
    }
}

fn son(id: &str, uploader: Option<&str>) -> Son {
    Son {
        id: id.to_string(),
        slug: format!("slug-{id}"),
        title: "Sonion".to_string(),
        orig_url: "/uploads/orig/x.png".to_string(),
        thumb_url: "/uploads/thumb/x.jpg".to_string(),
        width: 1024,
        height: 1024,
        created_at: "2026-08-12T00:15:42+00:00".to_string(),
        is_public: true,
        reports: 0,
        likes: 0,
        liked_by_me: false,
        uploader: uploader.map(|n| Uploader { display_name: n.to_string(), avatar_url: None }),
    }
}

#[test]
fn a_son_is_described_in_one_line() {
    assert_eq!(describe(&son("1", None)), "Sonion \u{2014} in the son collection.");
    assert_eq!(describe(&son("1", Some("Ann"))), "Sonion \u{2014} in the son collection. Contributed by Ann.");
}

#[test]
fn the_detail_page_names_its_canonical_and_its_date() {
    let m = detail_meta(&son("1", None), Some("https://soncollection.com/"));
    assert_eq!(m.page_url, "https://soncollection.com/son/slug-1");
    assert_eq!(m.og_image, "https://soncollection.com/uploads/orig/x.png");
    assert_eq!(m.oembed_href, "https://soncollection.com/oembed?url=https://soncollection.com/son/slug-1");
    assert_eq!(m.download_href, "/son/slug-1/download");
    assert_eq!(m.iso_date, "2026-08-12");
    assert_eq!(m.date_text, "Aug 12, 2026");
    assert_eq!(m.uploader_name, "anonymous");
    assert_eq!(m.title, "Sonion \u{2014} son collection");
}

#[test]
fn image_object_json_ld_is_complete_and_credits_the_uploader() {
    let json = image_object_json_ld(&son("1", Some("</script>")));
    assert!(json.starts_with("{\"@context\":\"https://schema.org\",\"@type\":\"ImageObject\""));
    assert!(json.contains("\"width\":1024,\"height\":1024"));
    assert!(json.contains(",\"creator\":{\"@type\":\"Person\",\"name\":\"\\u003c/script\\u003e\"}"));
    assert!(!json.contains("</script>"));
    assert!(!image_object_json_ld(&son("1", None)).contains("creator"));
}

#[test]
fn a_swipe_needs_distance_and_a_son_on_that_side() {
    let s = swipe_down(Swipe::idle(), true, 100, 100);
    let s = swipe_move(s, 20, 102, true, true);
    assert_eq!(s.drag_tenths, -800);
    assert_eq!(translate_x(s.drag_tenths), "translateX(-80.0px)");
    assert!(matches!(swipe_up(s, true, true).1, Some(Side::Older)));
    let s = swipe_down(Swipe::idle(), true, 100, 100);
    let s = swipe_move(s, 20, 102, true, false);
    assert_eq!(s.drag_tenths, -280);
    assert!(swipe_up(s, true, false).1.is_none());
    let s = swipe_down(Swipe::idle(), true, 100, 100);
    let s = swipe_move(s, 130, 100, true, true);
    assert!(swipe_up(s, true, true).1.is_none());
    let s = swipe_down(Swipe::idle(), false, 100, 100);
    assert!(s.grab.is_none());
}

#[test]
fn a_vertical_drag_is_handed_back_to_scrolling() {
    let s = swipe_down(Swipe::idle(), true, 100, 100);
    let s = swipe_move(s, 110, 160, true, true);
    assert!(s.grab.is_none());
    assert!(s.settling);
    assert_eq!(s.drag_tenths, 0);
    assert_eq!(translate_x(7), "translateX(0.7px)");
}

#[test]
fn the_sort_menu_wraps_and_closes() {
    let closed = Menu { open: false, focus: None };
    let k = on_key(closed, "ArrowUp");
    assert_eq!(k.menu, Menu { open: true, focus: Some(3) });
    let k = on_key(k.menu, "ArrowDown");
    assert_eq!(k.menu.focus, Some(0));
    let k = on_key(k.menu, "End");
    assert_eq!(k.menu.focus, Some(3));
    let k = on_key(k.menu, "Escape");
    assert_eq!(k.menu, Menu { open: false, focus: None });
    assert!(k.handled && k.refocus_trigger);
    let k = on_key(closed, "Escape");
    assert!(!k.handled);
    assert_eq!(label_for(GalleryView::Sort(Sort::Az)), "A\u{2013}Z");
    assert_eq!(GalleryView::SonOfDay.sort(), Sort::Newest);
    assert!(GalleryView::default() == GalleryView::Sort(Sort::Newest));
}

#[test]
fn the_feed_pages_until_there_is_no_cursor() {
    let mut f = Feed::new();
    f.first_page(&SonPage { sons: vec![son("1", None)], next_cursor: Some("c1".into()) });
    assert_eq!(f.cursor.as_deref(), Some("c1"));
    assert!(f.wants_more(false));
    assert!(!f.wants_more(true));
    f.more(SonPage { sons: vec![son("2", None)], next_cursor: None });
    assert_eq!(f.extra.len(), 1);
    assert!(f.exhausted);
    assert!(!f.wants_more(false));
    f.reset();
    assert!(f.extra.is_empty() && f.cursor.is_none() && !f.exhausted);
}

#[test]
fn cards_and_the_more_strip() {
    assert_eq!(aspect_ratio(0, 9), "1 / 9");
    assert_eq!(byline(&son("1", Some("Ann"))), "by Ann");
    assert_eq!(byline(&son("1", None)), "anonymous");
    let kept = more_sons(vec![son("1", None), son("2", None), son("3", None)], Some("2"));
    assert_eq!(kept.iter().map(|s| s.id.as_str()).collect::<Vec<_>>(), vec!["1", "3"]);
    assert_eq!(more_sons(vec![son("1", None)], None).len(), 1);
}

#[test]
fn wire_names_read_back_as_themselves() {
    for s in [Sort::Newest, Sort::MostLiked, Sort::Az] {
        assert_eq!(Sort::from_str_or_default(s.as_str()), s);
    }
    assert_eq!(Sort::from_str_or_default("sun"), Sort::Newest);
    for r in ReportReason::all() {
        assert_eq!(ReportReason::from_str_or_default(r.as_str()), r);
    }
    assert_eq!(ReportReason::from_str_or_default("whatever"), ReportReason::NotSon);
}
