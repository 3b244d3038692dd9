//! An upload from both ends: the server's pipeline as a state machine
//! (decode and hash, duplicate check, screening, squaring, crop, store,
//! record), the title it is filed under, and the upload page's side of it:
//! which files it refuses before sending, how it reads each poll, and how far
//! along the bar each step sits.
use vstd::prelude::*;
use crate::gemini::{Verdict, Unavailable, spec_acceptable};
use crate::raster::Rgba;
use crate::dedupe::{sha256, sha256_hex, hex_bytes};
use crate::codec::{write_png, plain_png};
use crate::models::{Progress, Son, Step, UploadResult, step_index};
use crate::text::{chars_of, string_of, push_str, push_char, trimmed, trim, is_control, char_is_control, equals,
    flat_map, lemma_flat_map_step};

verus! {

// ---------------------------------------------------------------------------
// Titles

/// `s` without its control characters.
pub open spec fn without_controls(s: Seq<char>) -> Seq<char> {
    flat_map(s, |c: char| if is_control(c) { Seq::<char>::empty() } else { seq![c] })
}

/// Longest title kept, in characters.
pub const TITLE_MAX: usize = 80;

/// The title a son is filed under: trimmed, control characters dropped, cut
/// to 80 characters, and a stock name when nothing is left.
pub open spec fn spec_clean_title(raw: Seq<char>) -> Seq<char> {
    let f = without_controls(trimmed(raw));
    let t = if f.len() > TITLE_MAX { f.take(TITLE_MAX as int) } else { f };
    if t.len() == 0 { "untitled son"@ } else { t }
}

pub fn clean_title(raw: &str) -> (r: String)
    ensures
        r@ == spec_clean_title(raw@),
{
    let c = chars_of(raw);
    let t = trim(&c);
    let mut kept: Vec<char> = Vec::new();
    let mut i: usize = 0;
    proof { assert(t@.take(0) =~= Seq::<char>::empty()); }
    while i < t.len()
        invariant
            i <= t.len(),
            kept@ == without_controls(t@.take(i as int)),
        decreases t.len() - i,
    {
        proof { lemma_flat_map_step(t@, i as int, |c: char| if is_control(c) { Seq::<char>::empty() } else { seq![c] }); }
        if !char_is_control(t[i]) {
            let ghost before = kept@;
            kept.push(t[i]);
            proof { assert(before.push(t@[i as int]) =~= before + seq![t@[i as int]]); }
        } else {
            proof { assert(kept@ + Seq::<char>::empty() =~= kept@); }
        }
        i = i + 1;
    }
    proof { assert(t@.take(t@.len() as int) =~= t@); }
    if kept.len() > TITLE_MAX {
        kept.truncate(TITLE_MAX);
    }
    if kept.len() == 0 {
        let mut r = String::new();
        push_str(&mut r, "untitled son");
        r
    } else {
        string_of(&kept)
    }
}

proof fn lemma_without_controls(s: Seq<char>)
    ensures
        forall|j: int| 0 <= j < without_controls(s).len() ==> !is_control(#[trigger] without_controls(s)[j]),
    decreases s.len(),
{
    if s.len() > 0 {
        lemma_without_controls(s.drop_last());
        let a = without_controls(s.drop_last());
        let f = |c: char| if is_control(c) { Seq::<char>::empty() } else { seq![c] };
        let b = f(s.last());
        assert(without_controls(s) == a + b);
        assert forall|j: int| 0 <= j < (a + b).len() implies !is_control(#[trigger] (a + b)[j]) by {
            if j >= a.len() {
                assert((a + b)[j] == b[j - a.len()]);
            }
        }
    }
}

/// A filed title is never empty, never over 80 characters, and holds no
/// control character (so no NUL, which the A-Z cursor relies on).
pub proof fn lemma_clean_title_shape(raw: Seq<char>)
    ensures
        0 < spec_clean_title(raw).len() <= TITLE_MAX,
        forall|j: int| 0 <= j < spec_clean_title(raw).len() ==> !is_control(#[trigger] spec_clean_title(raw)[j]),
{
    reveal_strlit("untitled son");
    let f = without_controls(trimmed(raw));
    lemma_without_controls(trimmed(raw));
    let t = if f.len() > TITLE_MAX { f.take(TITLE_MAX as int) } else { f };
    assert forall|j: int| 0 <= j < t.len() implies !is_control(#[trigger] t[j]) by {
        assert(t[j] == f[j]);
    }
    let u = "untitled son"@;
    assert forall|j: int| 0 <= j < u.len() implies !is_control(#[trigger] u[j]) by {}
}

proof fn lemma_without_controls_keeps(s: Seq<char>)
    requires
        forall|j: int| 0 <= j < s.len() ==> !is_control(#[trigger] s[j]),
    ensures
        without_controls(s) == s,
    decreases s.len(),
{
    if s.len() > 0 {
        let p = s.drop_last();
        assert forall|j: int| 0 <= j < p.len() implies !is_control(#[trigger] p[j]) by {
            assert(p[j] == s[j]);
        }
        lemma_without_controls_keeps(p);
        assert(!is_control(s.last()));
        assert(without_controls(s) == without_controls(p) + seq![s.last()]);
        assert(p + seq![s.last()] =~= s);
    }
}

/// Cleaning only drops what does not belong in a title: a title of 1 to 80
/// characters with no white space at either end and no control character is
/// filed exactly as typed, inner spaces and all.
pub proof fn lemma_clean_title_keeps_a_clean_title(raw: Seq<char>)
    requires
        0 < raw.len() <= TITLE_MAX,
        !crate::text::is_white(raw[0]),
        !crate::text::is_white(raw.last()),
        forall|j: int| 0 <= j < raw.len() ==> !is_control(#[trigger] raw[j]),
    ensures
        spec_clean_title(raw) == raw,
{
    crate::text::lemma_lead_white_is(raw, 0);
    assert(raw.skip(0) =~= raw);
    crate::text::lemma_trail_white_is(raw, 0);
    assert(raw.take(raw.len() as int) =~= raw);
    assert(trimmed(raw) == raw);
    lemma_without_controls_keeps(raw);
}

// ---------------------------------------------------------------------------
// The server's pipeline

/// What the pipeline is waiting for.
#[derive(Clone, Copy, Debug, PartialEq, Eq, Structural)]
pub enum Stage {
    Decoding,
    CheckingDuplicate,
    Encoding,
    Judging,
    Squaring,
    Cropping,
    Storing,
    Inserting,
    /// Done, refused or failed: nothing further happens.
    Finished,
}

/// One upload's pipeline.
#[derive(Debug)]
pub struct Pipeline {
    pub stage: Stage,
    /// Whether screening is switched on.
    pub screening: bool,
    /// Why screening could not run, when it could not. Such an upload is
    /// published unscreened: an outage does not stop contributions.
    pub unscreened: Option<String>,
    /// The step last reported to the browser.
    pub reported: Step,
}

/// What the server learned from the work it was last asked to do.
#[derive(Debug)]
pub enum Event {
    /// The decoded upload, or why it did not decode.
    Decoded(Result<Rgba, String>),
    /// The slug of an identical son already here, if any, or why the lookup
    /// failed.
    DuplicateChecked(Result<Option<String>, String>),
    /// Whether the image could be re-encoded for screening.
    Encoded(bool),
    /// The screening verdict, or why there was none.
    Judged(Result<Verdict, Unavailable>),
    /// Whether the squared version is recognisably the upload, or why there
    /// is no squared version.
    Squared(Result<bool, Unavailable>),
    Cropped,
    /// Whether the files were stored.
    Stored(bool),
    /// The recorded son, or why recording failed.
    Inserted(Result<Son, String>),
}

/// The next piece of work for the server.
#[derive(Debug)]
pub enum Work {
    Decode,
    /// Look for a son with this hash of the decoded pixels; the image
    /// comes back with it.
    FindDuplicate { hash: String, img: Rgba },
    EncodeForScreening,
    Judge,
    Square,
    /// Crop and scale to the canvas, from the squared version or the
    /// original.
    Crop { use_square: bool },
    Store,
    /// Record the son, public or not.
    Insert { is_public: bool },
    /// The row failed after the files landed: remove them.
    RemoveFiles,
    Nothing,
}

/// The progress to publish, if any, and the next piece of work.
#[derive(Debug)]
pub struct Next {
    pub report: Option<Progress>,
    pub work: Work,
}

/// The next piece of work, with its text as text.
pub enum Asked {
    Decode,
    FindDuplicate(Seq<char>, Rgba),
    EncodeForScreening,
    Judge,
    Square,
    Crop { use_square: bool },
    Store,
    Insert { is_public: bool },
    RemoveFiles,
    Nothing,
}

pub open spec fn asked(w: Work) -> Asked {
    match w {
        Work::Decode => Asked::Decode,
        Work::FindDuplicate { hash, img } => Asked::FindDuplicate(hash@, img),
        Work::EncodeForScreening => Asked::EncodeForScreening,
        Work::Judge => Asked::Judge,
        Work::Square => Asked::Square,
        Work::Crop { use_square } => Asked::Crop { use_square },
        Work::Store => Asked::Store,
        Work::Insert { is_public } => Asked::Insert { is_public },
        Work::RemoveFiles => Asked::RemoveFiles,
        Work::Nothing => Asked::Nothing,
    }
}

/// The duplicate lookup's key: the SHA-256 of the decoded pixels, in hex.
pub open spec fn pixel_hash(img: Rgba) -> Seq<char> {
    hex_bytes(sha256(img.data@))
}

/// What the browser is told after a transition, with its text as text.
pub enum Told {
    Nothing,
    Running(Step),
    Done(Son),
    Rejected(Seq<char>),
    Failed(Seq<char>),
}

pub open spec fn told(r: Option<Progress>) -> Told {
    match r {
        None => Told::Nothing,
        Some(Progress::Running { step }) => Told::Running(step),
        Some(Progress::Done { son }) => Told::Done(*son),
        Some(Progress::Rejected { reason }) => Told::Rejected(reason@),
        Some(Progress::Failed { message }) => Told::Failed(message@),
    }
}

pub open spec fn finished(p: Pipeline) -> Pipeline {
    Pipeline { stage: Stage::Finished, ..p }
}

pub open spec fn moved(p: Pipeline, stage: Stage, reported: Step) -> Pipeline {
    Pipeline { stage, reported, ..p }
}

pub open spec fn duplicate_message(slug: Seq<char>) -> Seq<char> {
    "this exact image is already in the collection: /son/"@ + slug
}

/// The pipeline's transitions: from where it is and what the last piece of
/// work produced, where it goes, what the browser is told and what is done
/// next. An event that does not belong to the current stage changes nothing.
pub open spec fn transition(p: Pipeline, e: Event) -> (Pipeline, Told, Asked) {
    match (p.stage, e) {
        (Stage::Decoding, Event::Decoded(Ok(img))) =>
            (moved(p, Stage::CheckingDuplicate, p.reported), Told::Nothing, Asked::FindDuplicate(pixel_hash(img), img)),
        (Stage::Decoding, Event::Decoded(Err(m))) =>
            (finished(p), Told::Failed(m@), Asked::Nothing),
        (Stage::CheckingDuplicate, Event::DuplicateChecked(Ok(Some(slug)))) =>
            (finished(p), Told::Rejected(duplicate_message(slug@)), Asked::Nothing),
        (Stage::CheckingDuplicate, Event::DuplicateChecked(_)) =>
            if p.screening {
                (moved(p, Stage::Encoding, p.reported), Told::Nothing, Asked::EncodeForScreening)
            } else {
                (moved(p, Stage::Cropping, Step::Cropping), Told::Running(Step::Cropping), Asked::Crop { use_square: false })
            },
        (Stage::Encoding, Event::Encoded(ok)) =>
            if ok {
                (moved(p, Stage::Judging, Step::Scanning), Told::Running(Step::Scanning), Asked::Judge)
            } else {
                (finished(p), Told::Failed("could not process this son"@), Asked::Nothing)
            },
        (Stage::Judging, Event::Judged(Ok(v))) =>
            match spec_acceptable(v.verdict@, v.topic@) {
                Err(reason) => (finished(p), Told::Rejected(reason), Asked::Nothing),
                Ok(()) => (moved(p, Stage::Squaring, Step::Regenerating), Told::Running(Step::Regenerating), Asked::Square),
            },
        (Stage::Judging, Event::Judged(Err(Unavailable(why)))) =>
            (Pipeline { stage: Stage::Cropping, reported: Step::Cropping, unscreened: Some(why), ..p },
                Told::Running(Step::Cropping), Asked::Crop { use_square: false }),
        (Stage::Squaring, Event::Squared(r)) =>
            (moved(p, Stage::Cropping, Step::Cropping), Told::Running(Step::Cropping),
                Asked::Crop { use_square: r matches Ok(true) }),
        (Stage::Cropping, Event::Cropped) =>
            (moved(p, Stage::Storing, Step::Storing), Told::Running(Step::Storing), Asked::Store),
        (Stage::Storing, Event::Stored(ok)) =>
            if ok {
                (moved(p, Stage::Inserting, p.reported), Told::Nothing, Asked::Insert { is_public: true })
            } else {
                (finished(p), Told::Failed("could not save this son"@), Asked::Nothing)
            },
        (Stage::Inserting, Event::Inserted(Ok(son))) =>
            (finished(p), Told::Done(son), Asked::Nothing),
        (Stage::Inserting, Event::Inserted(Err(_))) =>
            (finished(p), Told::Failed("could not record this son"@), Asked::RemoveFiles),
        _ => (p, Told::Nothing, Asked::Nothing),
    }
}

/// A new pipeline: it reports fingerprinting and starts decoding.
pub fn begin(screening: bool) -> (r: (Pipeline, Next))
    ensures
        r.0 == (Pipeline { stage: Stage::Decoding, screening, unscreened: None, reported: Step::Fingerprinting }),
        told(r.1.report) == Told::Running(Step::Fingerprinting),
        r.1.work == Work::Decode,
{
    (
        Pipeline { stage: Stage::Decoding, screening, unscreened: None, reported: Step::Fingerprinting },
        Next { report: Some(Progress::Running { step: Step::Fingerprinting }), work: Work::Decode },
    )
}

fn failed(m: &str) -> (r: Option<Progress>)
    ensures
        told(r) == Told::Failed(m@),
{
    let mut s = String::new();
    push_str(&mut s, m);
    Some(Progress::Failed { message: s })
}

/// One step of the pipeline.
pub fn advance(p: Pipeline, e: Event) -> (r: (Pipeline, Next))
    ensures
        r.0 == transition(p, e).0,
        told(r.1.report) == transition(p, e).1,
        asked(r.1.work) == transition(p, e).2,
{
    let ghost p0 = p;
    let ghost e0 = e;
    let Pipeline { stage, screening, unscreened, reported } = p;
    match (stage, e) {
        (Stage::Decoding, Event::Decoded(Ok(img))) => {
            let hash = sha256_hex(&img.data);
            (
                Pipeline { stage: Stage::CheckingDuplicate, screening, unscreened, reported },
                Next { report: None, work: Work::FindDuplicate { hash, img } },
            )
        }
        (Stage::Decoding, Event::Decoded(Err(m))) => (
            Pipeline { stage: Stage::Finished, screening, unscreened, reported },
            Next { report: Some(Progress::Failed { message: m }), work: Work::Nothing },
        ),
        (Stage::CheckingDuplicate, Event::DuplicateChecked(found)) => {
            match found {
                Ok(Some(slug)) => {
                    let mut m = String::new();
                    push_str(&mut m, "this exact image is already in the collection: /son/");
                    push_str(&mut m, slug.as_str());
                    (
                        Pipeline { stage: Stage::Finished, screening, unscreened, reported },
                        Next { report: Some(Progress::Rejected { reason: m }), work: Work::Nothing },
                    )
                }
                _ => {
                    if screening {
                        (
                            Pipeline { stage: Stage::Encoding, screening, unscreened, reported },
                            Next { report: None, work: Work::EncodeForScreening },
                        )
                    } else {
                        (
                            Pipeline { stage: Stage::Cropping, screening, unscreened, reported: Step::Cropping },
                            Next { report: Some(Progress::Running { step: Step::Cropping }), work: Work::Crop { use_square: false } },
                        )
                    }
                }
            }
        }
        (Stage::Encoding, Event::Encoded(ok)) => {
            if ok {
                (
                    Pipeline { stage: Stage::Judging, screening, unscreened, reported: Step::Scanning },
                    Next { report: Some(Progress::Running { step: Step::Scanning }), work: Work::Judge },
                )
            } else {
                (
                    Pipeline { stage: Stage::Finished, screening, unscreened, reported },
                    Next { report: failed("could not process this son"), work: Work::Nothing },
                )
            }
        }
        (Stage::Judging, Event::Judged(Ok(v))) => {
            match v.acceptable() {
                Err(reason) => (
                    Pipeline { stage: Stage::Finished, screening, unscreened, reported },
                    Next { report: Some(Progress::Rejected { reason }), work: Work::Nothing },
                ),
                Ok(()) => (
                    Pipeline { stage: Stage::Squaring, screening, unscreened, reported: Step::Regenerating },
                    Next { report: Some(Progress::Running { step: Step::Regenerating }), work: Work::Square },
                ),
            }
        }
        (Stage::Judging, Event::Judged(Err(Unavailable(why)))) => (
            Pipeline { stage: Stage::Cropping, screening, unscreened: Some(why), reported: Step::Cropping },
            Next { report: Some(Progress::Running { step: Step::Cropping }), work: Work::Crop { use_square: false } },
        ),
        (Stage::Squaring, Event::Squared(res)) => {
            let use_square = match res {
                Ok(plausible) => plausible,
                Err(_) => false,
            };
            (
                Pipeline { stage: Stage::Cropping, screening, unscreened, reported: Step::Cropping },
                Next { report: Some(Progress::Running { step: Step::Cropping }), work: Work::Crop { use_square } },
            )
        }
        (Stage::Cropping, Event::Cropped) => (
            Pipeline { stage: Stage::Storing, screening, unscreened, reported: Step::Storing },
            Next { report: Some(Progress::Running { step: Step::Storing }), work: Work::Store },
        ),
        (Stage::Storing, Event::Stored(ok)) => {
            if ok {
                let is_public = true;
                (
                    Pipeline { stage: Stage::Inserting, screening, unscreened, reported },
                    Next { report: None, work: Work::Insert { is_public } },
                )
            } else {
                (
                    Pipeline { stage: Stage::Finished, screening, unscreened, reported },
                    Next { report: failed("could not save this son"), work: Work::Nothing },
                )
            }
        }
        (Stage::Inserting, Event::Inserted(Ok(son))) => (
            Pipeline { stage: Stage::Finished, screening, unscreened, reported },
            Next { report: Some(Progress::Done { son: Box::new(son) }), work: Work::Nothing },
        ),
        (Stage::Inserting, Event::Inserted(Err(_))) => (
            Pipeline { stage: Stage::Finished, screening, unscreened, reported },
            Next { report: failed("could not record this son"), work: Work::RemoveFiles },
        ),
        _ => (
            Pipeline { stage, screening, unscreened, reported },
            Next { report: None, work: Work::Nothing },
        ),
    }
}

/// Every step the browser is told about comes later in the pipeline than the
/// one before it, so the progress bar never walks backwards.
pub proof fn lemma_steps_only_advance(p: Pipeline, e: Event)
    requires
        p.stage != Stage::Finished ==> step_index(p.reported) <= step_index(reported_floor(p.stage)),
    ensures
        transition(p, e).1 matches Told::Running(s) ==> step_index(s) > step_index(p.reported),
        step_index(transition(p, e).0.reported) >= step_index(p.reported),
{
}

/// The latest step that can have been reported while waiting in a stage.
pub open spec fn reported_floor(stage: Stage) -> Step {
    match stage {
        Stage::Decoding | Stage::CheckingDuplicate | Stage::Encoding => Step::Fingerprinting,
        Stage::Judging => Step::Scanning,
        Stage::Squaring => Step::Regenerating,
        Stage::Cropping => Step::Cropping,
        Stage::Storing | Stage::Inserting | Stage::Finished => Step::Storing,
    }
}

/// The pipeline keeps `reported` at most the floor of its stage, from the
/// start and across every transition.
pub proof fn lemma_reported_within_stage(p: Pipeline, e: Event)
    requires
        step_index(p.reported) <= step_index(reported_floor(p.stage)),
    ensures
        step_index(transition(p, e).0.reported) <= step_index(reported_floor(transition(p, e).0.stage)),
{
}

/// A finished pipeline stays finished and does nothing more, whatever
/// arrives.
pub proof fn lemma_finished_is_final(p: Pipeline, e: Event)
    requires
        p.stage == Stage::Finished,
    ensures
        transition(p, e) == (p, Told::Nothing, Asked::Nothing),
{
}

/// Every upload that gets as far as being recorded is recorded public: when
/// screening could not run it is published unscreened rather than lost, and
/// only a screening outage marks it so.
pub proof fn lemma_outage_publishes_unscreened(p: Pipeline, e: Event)
    ensures
        transition(p, e).2 matches Asked::Insert { is_public } ==> is_public,
        transition(p, e).0.unscreened != p.unscreened ==> (e matches Event::Judged(Err(_))),
{
}

/// A refusal, by the duplicate check or by screening, ends the pipeline
/// before anything is stored.
pub proof fn lemma_refusals_store_nothing(p: Pipeline, e: Event)
    ensures
        transition(p, e).1 matches Told::Rejected(_) ==>
            transition(p, e).0.stage == Stage::Finished && transition(p, e).2 == Asked::Nothing
            && (e is DuplicateChecked || e is Judged),
{
}

/// Where a stage comes in the pipeline's order.
pub open spec fn stage_index(s: Stage) -> nat {
    match s {
        Stage::Decoding => 0,
        Stage::CheckingDuplicate => 1,
        Stage::Encoding => 2,
        Stage::Judging => 3,
        Stage::Squaring => 4,
        Stage::Cropping => 5,
        Stage::Storing => 6,
        Stage::Inserting => 7,
        Stage::Finished => 8,
    }
}

/// The pipeline only moves forward: an event either moves it to a later
/// stage, or does not belong where it is and changes nothing, asks for
/// nothing and tells the browser nothing. So no stage is ever visited
/// twice, and an upload reaches `Finished` after at most eight pieces of
/// work.
pub proof fn lemma_pipeline_only_moves_forward(p: Pipeline, e: Event)
    ensures
        stage_index(transition(p, e).0.stage) > stage_index(p.stage)
            || (transition(p, e) == (p, Told::Nothing, Asked::Nothing)),
        transition(p, e).2 != Asked::Nothing ==> stage_index(transition(p, e).0.stage) > stage_index(p.stage),
{
}

/// The PNG sent to screening: the decoded pixels as they are, with none of
/// the watermark or provenance text a stored original gets.
pub fn screening_png(img: &Rgba) -> (r: Result<Vec<u8>, String>)
    requires
        img.wf(),
    ensures
        match r {
            Ok(b) => plain_png(img.width, img.height, img.data@) == Ok::<Seq<u8>, Seq<char>>(b@),
            Err(e) => plain_png(img.width, img.height, img.data@) == Err::<Seq<u8>, Seq<char>>(e@),
        },
{
    write_png(img)
}

/// What a status poll is answered: the job's progress, or, for an id that
/// expired or never existed, the same failure either way, since nothing
/// further is coming.
pub fn status_reply(found: Option<Progress>) -> (r: Progress)
    ensures
        match found {
            Some(p) => r == p,
            None => told(Some(r)) == Told::Failed("this upload is no longer being tracked"@),
        },
{
    match found {
        Some(p) => p,
        None => {
            let mut m = String::new();
            push_str(&mut m, "this upload is no longer being tracked");
            Progress::Failed { message: m }
        }
    }
}

// ---------------------------------------------------------------------------
// The upload page

/// The three facts a visitor can act on, out of the six steps the server
/// reports.
pub open spec fn spec_phase(step: Step) -> Seq<char> {
    match step {
        Step::Receiving => "Uploading"@,
        Step::Fingerprinting | Step::Scanning | Step::Regenerating | Step::Cropping => "Working"@,
        Step::Storing => "Saving"@,
    }
}

pub fn phase(step: Step) -> (r: &'static str)
    ensures
        r@ == spec_phase(step),
{
    match step {
        Step::Receiving => "Uploading",
        Step::Fingerprinting | Step::Scanning | Step::Regenerating | Step::Cropping => "Working",
        Step::Storing => "Saving",
    }
}

/// Where a step sits on the progress bar: where its band starts and the
/// ceiling it approaches, in hundredths of the bar, and how many polls it
/// takes to cover half the band.
pub open spec fn spec_band(step: Step) -> (u32, u32, u32) {
    match step {
        Step::Receiving => (0, 8, 4),
        Step::Fingerprinting => (8, 14, 2),
        Step::Scanning => (14, 22, 4),
        Step::Regenerating => (22, 88, 12),
        Step::Cropping => (88, 91, 1),
        Step::Storing => (91, 99, 6),
    }
}

pub fn band(step: Step) -> (r: (u32, u32, u32))
    ensures
        r == spec_band(step),
{
    match step {
        Step::Receiving => (0, 8, 4),
        Step::Fingerprinting => (8, 14, 2),
        Step::Scanning => (14, 22, 4),
        Step::Regenerating => (22, 88, 12),
        Step::Cropping => (88, 91, 1),
        Step::Storing => (91, 99, 6),
    }
}

/// The step after `s` in pipeline order, if any.
pub open spec fn next_step(s: Step) -> Option<Step> {
    match s {
        Step::Receiving => Some(Step::Fingerprinting),
        Step::Fingerprinting => Some(Step::Scanning),
        Step::Scanning => Some(Step::Regenerating),
        Step::Regenerating => Some(Step::Cropping),
        Step::Cropping => Some(Step::Storing),
        Step::Storing => None,
    }
}

/// The bands tile the bar: the first starts at zero, each starts where the
/// one before it ends, each has room to move, none divides by zero, and the
/// last ends short of full.
pub proof fn lemma_bands_tile(s: Step)
    ensures
        spec_band(Step::Receiving).0 == 0,
        spec_band(s).0 < spec_band(s).1,
        spec_band(s).2 > 0,
        next_step(s) matches Some(n) ==> spec_band(n).0 == spec_band(s).1,
        spec_band(s).1 < 100,
{
}

/// The bar's fill after `t` polls in a step, as the fraction
/// `start + (ceiling - start) * t / (t + tau)` of 100: its numerator here.
pub open spec fn fill_num(step: Step, t: nat) -> int {
    let (start, ceiling, tau) = spec_band(step);
    start * (t + tau) + (ceiling - start) * t
}

/// The matching denominator.
pub open spec fn fill_den(step: Step, t: nat) -> int {
    t + spec_band(step).2
}

/// Within a step the fill starts at the band's start, grows at every poll,
/// and never reaches the band's ceiling.
pub proof fn lemma_fill_moves(step: Step, t: nat)
    ensures
        fill_num(step, 0) == spec_band(step).0 * fill_den(step, 0),
        fill_num(step, t) * fill_den(step, t + 1) < fill_num(step, t + 1) * fill_den(step, t),
        fill_num(step, t + 1) < spec_band(step).1 * fill_den(step, t + 1),
{
    let (a, c, tau) = spec_band(step);
    let (a, c, tau) = (a as int, c as int, tau as int);
    let t = t as int;
    assert(a < c && tau > 0);
    assert((a * (t + tau) + (c - a) * t) * (t + 1 + tau) < (a * (t + 1 + tau) + (c - a) * (t + 1)) * (t + tau))
        by (nonlinear_arith)
        requires a < c, tau > 0, t >= 0;
    assert(a * (t + 1 + tau) + (c - a) * (t + 1) < c * (t + 1 + tau)) by (nonlinear_arith)
        requires a < c, tau > 0, t >= 0;
}

/// Largest file the page sends, in bytes: the server's own limit.
pub const MAX_BYTES: u64 = 12582912;

/// Why the page refuses a picked file before sending it, if it does: too
/// big, or a declared type that is not an image the site takes. An empty
/// type passes, since several platforms send none.
pub open spec fn spec_pick_problem(size: u64, mime: Seq<char>) -> Option<Seq<char>> {
    if size > MAX_BYTES {
        Some("That file is over 12 MB."@)
    } else if mime.len() > 0 && mime != "image/png"@ && mime != "image/jpeg"@ && mime != "image/webp"@
        && mime != "image/gif"@ {
        Some("That needs to be a PNG, JPG, WEBP or GIF."@)
    } else {
        None
    }
}

pub fn pick_problem(size: u64, mime: &str) -> (r: Option<String>)
    ensures
        match spec_pick_problem(size, mime@) {
            Some(m) => r matches Some(s) && s@ == m,
            None => r is None,
        },
{
    if size > MAX_BYTES {
        let mut m = String::new();
        push_str(&mut m, "That file is over 12 MB.");
        return Some(m);
    }
    let c = chars_of(mime);
    if c.len() > 0 && !equals(&c, "image/png") && !equals(&c, "image/jpeg") && !equals(&c, "image/webp")
        && !equals(&c, "image/gif") {
        let mut m = String::new();
        push_str(&mut m, "That needs to be a PNG, JPG, WEBP or GIF.");
        return Some(m);
    }
    None
}

/// The page's reading of one poll: keep polling (with the step now shown
/// and how many polls have reported it), or stop with the outcome to show.
#[derive(Debug)]
pub enum Poll {
    Continue { step: Step, seen: u32 },
    Stop(UploadResult),
}

/// What a poll's answer means to the page, given the step shown so far and
/// how many polls have reported it.
pub fn read_poll(current: Step, seen: u32, p: Progress) -> (r: Poll)
    requires
        seen < u32::MAX,
    ensures
        match p {
            Progress::Running { step } => if step == current {
                r == Poll::Continue { step, seen: (seen + 1) as u32 }
            } else {
                r == Poll::Continue { step, seen: 0 }
            },
            Progress::Done { son } => r == Poll::Stop(UploadResult::Published { son: *son }),
            Progress::Rejected { reason } => r == Poll::Stop(UploadResult::Rejected { reason }),
            Progress::Failed { message } => r == Poll::Stop(UploadResult::Error { message }),
        },
{
    match p {
        Progress::Running { step } => {
            if step == current {
                Poll::Continue { step, seen: seen + 1 }
            } else {
                Poll::Continue { step, seen: 0 }
            }
        }
        Progress::Done { son } => Poll::Stop(UploadResult::Published { son: *son }),
        Progress::Rejected { reason } => Poll::Stop(UploadResult::Rejected { reason }),
        Progress::Failed { message } => Poll::Stop(UploadResult::Error { message }),
    }
}

/// The colour an outcome is drawn in.
#[derive(Clone, Copy, Debug, PartialEq, Eq, Structural)]
pub enum Tone {
    Good,
    Caution,
    Danger,
}

/// How the page shows a finished upload.
pub struct Outcome {
    pub tone: Tone,
    pub headline: String,
    pub note: Option<String>,
    /// Where "View son" goes, when there is a son to view.
    pub link: Option<String>,
}

pub open spec fn opt_view(s: Option<String>) -> Option<Seq<char>> {
    match s {
        Some(v) => Some(v@),
        None => None,
    }
}

/// The box shown for an upload's result; nothing while it is still queued.
/// A son held for review says so instead of linking to a page nobody can see
/// yet.
pub fn outcome(r: &UploadResult) -> (o: Option<Outcome>)
    ensures
        match *r {
            UploadResult::Queued { .. } => o is None,
            UploadResult::Published { son } => o matches Some(x) && if !son.is_public {
                x.tone == Tone::Caution && x.headline@ == "Saved, waiting on review"@
                    && opt_view(x.note) == Some("We couldn't check this one automatically, so it won't appear until someone looks at it."@)
                    && x.link is None
            } else {
                x.tone == Tone::Good && x.headline@ == "Uploaded"@ && x.note is None
                    && opt_view(x.link) == Some("/son/"@ + son.slug@)
            },
            UploadResult::Rejected { reason } => o matches Some(x) && x.tone == Tone::Danger
                && x.headline@ == reason@ && x.note is None && x.link is None,
            UploadResult::Error { message } => o matches Some(x) && x.tone == Tone::Danger
                && x.headline@ == message@ && x.note is None && x.link is None,
        },
{
    match r {
        UploadResult::Queued { .. } => None,
        UploadResult::Published { son } => {
            if !son.is_public {
                let mut h = String::new();
                push_str(&mut h, "Saved, waiting on review");
                let mut n = String::new();
                push_str(&mut n, "We couldn't check this one automatically, so it won't appear until someone looks at it.");
                Some(Outcome { tone: Tone::Caution, headline: h, note: Some(n), link: None })
            } else {
                let mut h = String::new();
                push_str(&mut h, "Uploaded");
                let mut l = String::new();
                push_str(&mut l, "/son/");
                push_str(&mut l, son.slug.as_str());
                Some(Outcome { tone: Tone::Good, headline: h, note: None, link: Some(l) })
            }
        }
        UploadResult::Rejected { reason } => {
            Some(Outcome { tone: Tone::Danger, headline: reason.clone(), note: None, link: None })
        }
        UploadResult::Error { message } => {
            Some(Outcome { tone: Tone::Danger, headline: message.clone(), note: None, link: None })
        }
    }
}

} // verus!
