use soncollection::gemini::{Unavailable, Verdict};
use soncollection::jobs;
use soncollection::jobs::{get, start, JobRegistry, RETAIN_MS};
use soncollection::models::{Progress, Son, Step, UploadResult};
use soncollection::raster::Rgba;
use soncollection::upload::{
    advance, begin, clean_title, outcome, pick_problem, read_poll, status_reply, Event, Next, Pipeline, Poll, Stage, Tone,
    Work,
};

fn son(public: bool) -> Son {
    Son {
        id: "id".into(),
        slug: "capri-son".into(),
        title: "Capri Son".into(),
        orig_url: String::new(),
        thumb_url: String::new(),
        width: 1024,
        height: 1024,
        created_at: String::new(),
        is_public: public,
        reports: 0,
        likes: 0,
        liked_by_me: false,
        uploader: None,
    }
}

fn running(n: &Next) -> Option<Step> {
    match &n.report {
        Some(Progress::Running { step }) => Some(*step),
        _ => None,
    }
}

fn pixel() -> Rgba {
    Rgba { width: 1, height: 1, data: vec![0, 0, 0, 255] }
}

fn verdict(v: &str, t: &str) -> Verdict {
    Verdict { verdict: v.into(), topic: t.into() }
}

#[test]
fn a_screened_upload_walks_every_step_in_order() {
    let (p, n) = begin(true);
    assert_eq!(running(&n), Some(Step::Fingerprinting));
    assert!(matches!(n.work, Work::Decode));
    let (p, n) = advance(p, Event::Decoded(Ok(pixel())));
    // The key is the SHA-256 of the four bytes 0, 0, 0, 255.
    assert!(matches!(n.work, Work::FindDuplicate { ref hash, .. }
        if hash == &soncollection::dedupe::sha256_hex(&[0, 0, 0, 255])));
    let (p, n) = advance(p, Event::DuplicateChecked(Ok(None)));
    assert!(matches!(n.work, Work::EncodeForScreening));
    let (p, n) = advance(p, Event::Encoded(true));
    assert_eq!(running(&n), Some(Step::Scanning));
    let (p, n) = advance(p, Event::Judged(Ok(verdict("PASS", "SON"))));
    assert_eq!(running(&n), Some(Step::Regenerating));
    let (p, n) = advance(p, Event::Squared(Ok(true)));
    assert!(matches!(n.work, Work::Crop { use_square: true }));
    let (p, n) = advance(p, Event::Cropped);
    assert_eq!(running(&n), Some(Step::Storing));
    let (p, n) = advance(p, Event::Stored(true));
    assert!(matches!(n.work, Work::Insert { is_public: true }));
    let (p, n) = advance(p, Event::Inserted(Ok(son(true))));
    assert!(matches!(n.report, Some(Progress::Done { .. })));
    assert!(p.stage == Stage::Finished);
}

#[test]
fn an_exact_duplicate_is_refused_with_a_link() {
    let (p, _) = begin(true);
    let (p, _) = advance(p, Event::Decoded(Ok(pixel())));
    let (p, n) = advance(p, Event::DuplicateChecked(Ok(Some("capri-son".into()))));
    match n.report {
        Some(Progress::Rejected { reason }) => {
            assert_eq!(reason, "this exact image is already in the collection: /son/capri-son")
        }
        _ => panic!("not refused"),
    }
    assert!(p.stage == Stage::Finished);
    let (_, n) = advance(p, Event::Cropped);
    assert!(n.report.is_none() && matches!(n.work, Work::Nothing));
}

#[test]
fn a_failed_duplicate_lookup_does_not_block_the_upload() {
    let (p, _) = begin(false);
    let (p, _) = advance(p, Event::Decoded(Ok(pixel())));
    let (_, n) = advance(p, Event::DuplicateChecked(Err("d1 down".into())));
    assert_eq!(running(&n), Some(Step::Cropping));
    assert!(matches!(n.work, Work::Crop { use_square: false }));
}

#[test]
fn screening_refusals_are_written_here_not_echoed() {
    let (p, _) = begin(true);
    let (p, _) = advance(p, Event::Decoded(Ok(pixel())));
    let (p, _) = advance(p, Event::DuplicateChecked(Ok(None)));
    let (p, _) = advance(p, Event::Encoded(true));
    let (_, n) = advance(p, Event::Judged(Ok(verdict("PASS", "NOTSON, it is a cat"))));
    assert!(matches!(n.report, Some(Progress::Rejected { ref reason }) if reason == "That doesn't look like a son."));
    assert!(verdict("", "SON").acceptable().is_err());
    assert!(verdict("PASS!", "SON").acceptable().is_ok());
    assert_eq!(verdict("FAIL", "SON").acceptable().unwrap_err(), "This image was not accepted.");
}

#[test]
fn an_outage_publishes_the_upload_unscreened() {
    let (p, _) = begin(true);
    let (p, _) = advance(p, Event::Decoded(Ok(pixel())));
    let (p, _) = advance(p, Event::DuplicateChecked(Ok(None)));
    let (p, _) = advance(p, Event::Encoded(true));
    let (p, n) = advance(p, Event::Judged(Err(Unavailable("API error code: 1100".into()))));
    assert_eq!(running(&n), Some(Step::Cropping));
    assert_eq!(p.unscreened.as_deref(), Some("API error code: 1100"));
    let (p, _) = advance(p, Event::Cropped);
    let (_, n) = advance(p, Event::Stored(true));
    assert!(matches!(n.work, Work::Insert { is_public: true }));
}

#[test]
fn an_unrecognisable_square_keeps_the_original() {
    let p = Pipeline { stage: Stage::Squaring, screening: true, unscreened: None, reported: Step::Regenerating };
    let (_, n) = advance(p, Event::Squared(Ok(false)));
    assert!(matches!(n.work, Work::Crop { use_square: false }));
    let p = Pipeline { stage: Stage::Squaring, screening: true, unscreened: None, reported: Step::Regenerating };
    let (_, n) = advance(p, Event::Squared(Err(Unavailable("timeout".into()))));
    assert!(matches!(n.work, Work::Crop { use_square: false }));
}

#[test]
fn failures_say_which_step_broke() {
    let (p, _) = begin(true);
    let (_, n) = advance(p, Event::Decoded(Err("too big".into())));
    assert!(matches!(n.report, Some(Progress::Failed { ref message }) if message == "too big"));
    let p = Pipeline { stage: Stage::Storing, screening: true, unscreened: None, reported: Step::Storing };
    let (_, n) = advance(p, Event::Stored(false));
    assert!(matches!(n.report, Some(Progress::Failed { ref message }) if message == "could not save this son"));
    let p = Pipeline { stage: Stage::Inserting, screening: true, unscreened: None, reported: Step::Storing };
    let (_, n) = advance(p, Event::Inserted(Err("constraint".into())));
    assert!(matches!(n.work, Work::RemoveFiles));
    assert!(matches!(n.report, Some(Progress::Failed { ref message }) if message == "could not record this son"));
}

#[test]
fn titles_are_trimmed_cleaned_and_capped() {
    assert_eq!(clean_title("  Capri\u{7}Son \n"), "CapriSon");
    assert_eq!(clean_title("   "), "untitled son");
    assert_eq!(clean_title(&"é".repeat(100)).chars().count(), 80);
}

#[test]
fn the_page_refuses_what_the_server_would_refuse() {
    assert_eq!(pick_problem(12 * 1024 * 1024 + 1, "image/png").as_deref(), Some("That file is over 12 MB."));
    assert_eq!(pick_problem(10, "text/plain").as_deref(), Some("That needs to be a PNG, JPG, WEBP or GIF."));
    assert_eq!(pick_problem(10, ""), None);
    assert_eq!(pick_problem(12 * 1024 * 1024, "image/webp"), None);
}

#[test]
fn polls_count_repeats_and_stop_on_an_answer() {
    match read_poll(Step::Scanning, 3, Progress::Running { step: Step::Scanning }) {
        Poll::Continue { step, seen } => assert_eq!((step, seen), (Step::Scanning, 4)),
        _ => panic!("stopped early"),
    }
    match read_poll(Step::Scanning, 3, Progress::Running { step: Step::Regenerating }) {
        Poll::Continue { seen, .. } => assert_eq!(seen, 0),
        _ => panic!("stopped early"),
    }
    assert!(matches!(
        read_poll(Step::Scanning, 0, Progress::Failed { message: "m".into() }),
        Poll::Stop(UploadResult::Error { .. })
    ));
}

#[test]
fn a_held_son_says_so_instead_of_linking() {
    let held = outcome(&UploadResult::Published { son: son(false) }).unwrap();
    assert!(held.tone == Tone::Caution);
    assert_eq!(held.headline, "Saved, waiting on review");
    assert!(held.link.is_none());
    let shown = outcome(&UploadResult::Published { son: son(true) }).unwrap();
    assert_eq!(shown.link.as_deref(), Some("/son/capri-son"));
    assert!(outcome(&UploadResult::Queued { job: "j".into() }).is_none());
}

#[test]
fn a_forgotten_job_reads_as_failed() {
    match status_reply(None) {
        Progress::Failed { message } => assert_eq!(message, "this upload is no longer being tracked"),
        _ => panic!("not failed"),
    }
}

#[test]
fn jobs_report_their_latest_step_until_they_expire() {
    let mut reg = JobRegistry::new();
    let id = start(&mut reg, "job-1".to_string(), 1_000);
    assert!(matches!(get(&reg, &id, 1_500), Some(Progress::Running { step: Step::Receiving })));
    jobs::set(&mut reg, &id, Progress::Running { step: Step::Scanning }, 2_000);
    assert!(matches!(get(&reg, &id, 2_000), Some(Progress::Running { step: Step::Scanning })));
    jobs::set(&mut reg, "job-2", Progress::Failed { message: "x".into() }, 2_000 + RETAIN_MS + 1);
    assert!(get(&reg, &id, 2_000 + RETAIN_MS + 1).is_none());
    assert!(get(&reg, "job-2", 2_000 + RETAIN_MS + 1).is_some());
}

#[test]
fn an_expired_job_reads_as_gone_without_another_write() {
    let mut reg = JobRegistry::new();
    let id = start(&mut reg, "job-1".to_string(), 1_000);
    assert!(get(&reg, &id, 1_000 + RETAIN_MS - 1).is_some());
    assert!(get(&reg, &id, 1_000 + RETAIN_MS).is_none());
}

#[test]
fn an_event_out_of_place_changes_nothing() {
    let (p, _) = begin(false);
    let (p, n) = advance(p, Event::Cropped);
    assert_eq!(p.stage, Stage::Decoding);
    assert!(n.report.is_none());
    assert!(matches!(n.work, Work::Nothing));
    let (p, _) = advance(p, Event::Decoded(Ok(pixel())));
    let (p, n) = advance(p, Event::Stored(true));
    assert_eq!(p.stage, Stage::CheckingDuplicate);
    assert!(matches!(n.work, Work::Nothing));
}

#[test]
fn an_unscreened_upload_finishes_within_eight_pieces_of_work() {
    let (mut p, mut n) = begin(false);
    let mut done = 0;
    while !matches!(n.work, Work::Nothing) {
        let e = match n.work {
            Work::Decode => Event::Decoded(Ok(pixel())),
            Work::FindDuplicate { .. } => Event::DuplicateChecked(Ok(None)),
            Work::EncodeForScreening => Event::Encoded(true),
            Work::Judge => Event::Judged(Ok(verdict("PASS", "SON"))),
            Work::Square => Event::Squared(Ok(true)),
            Work::Crop { .. } => Event::Cropped,
            Work::Store => Event::Stored(true),
            Work::Insert { .. } => Event::Inserted(Ok(son(true))),
            Work::RemoveFiles | Work::Nothing => break,
        };
        let (p2, n2) = advance(p, e);
        p = p2;
        n = n2;
        done += 1;
        assert!(done <= 8);
    }
    assert_eq!(p.stage, Stage::Finished);
    assert!(matches!(n.report, Some(Progress::Done { .. })));
}
