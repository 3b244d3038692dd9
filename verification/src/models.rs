//! The types shared by every part of the site: a son, a page of them, an
//! upload's progress, the gallery orderings and report reasons.
//!
//! Timestamps travel as RFC 3339 strings, so nothing here names a clock type.
use vstd::prelude::*;
use crate::text::equals;
use crate::text::chars_of;

verus! {

/// The uploader shown on a card or detail page: nothing beyond what is
/// displayed.
#[derive(Clone, Debug)]
pub struct Uploader {
    pub display_name: String,
    pub avatar_url: Option<String>,
}

/// One son.
#[derive(Clone, Debug)]
pub struct Son {
    pub id: String,
    /// URL-safe form of the title, unique across sons; what `/son/:slug`
    /// matches on.
    pub slug: String,
    pub title: String,
    /// Public URLs, not filesystem paths.
    pub orig_url: String,
    pub thumb_url: String,
    pub width: u32,
    pub height: u32,
    pub created_at: String,
    pub is_public: bool,
    pub reports: i64,
    pub likes: i64,
    /// Whether the current visitor has already liked this one.
    pub liked_by_me: bool,
    /// `None` for an anonymous upload.
    pub uploader: Option<Uploader>,
}

/// Where an upload is, in the order the pipeline runs.
#[derive(Clone, Copy, Debug, PartialEq, Eq, Structural)]
pub enum Step {
    /// Bytes arriving from the browser.
    Receiving,
    /// Decode, content hash, duplicate lookup.
    Fingerprinting,
    /// Screening: safe, and actually a son?
    Scanning,
    /// Drawing the square version.
    Regenerating,
    /// Centre crop and scale to the fixed canvas.
    Cropping,
    /// Watermark, re-encode, thumbnail, upload.
    Storing,
}

/// Position of a step in the pipeline, from 0.
pub open spec fn step_index(s: Step) -> nat {
    match s {
        Step::Receiving => 0,
        Step::Fingerprinting => 1,
        Step::Scanning => 2,
        Step::Regenerating => 3,
        Step::Cropping => 4,
        Step::Storing => 5,
    }
}

pub open spec fn spec_step_label(s: Step) -> Seq<char> {
    match s {
        Step::Receiving => "Uploading"@,
        Step::Fingerprinting => "Fingerprinting"@,
        Step::Scanning => "Scanning"@,
        Step::Regenerating => "Regenerating"@,
        Step::Cropping => "Cropping"@,
        Step::Storing => "Saving"@,
    }
}

impl Step {
    /// Shown verbatim in the UI, present tense.
    pub fn label(self) -> (r: &'static str)
        ensures
            r@ == spec_step_label(self),
    {
        match self {
            Step::Receiving => "Uploading",
            Step::Fingerprinting => "Fingerprinting",
            Step::Scanning => "Scanning",
            Step::Regenerating => "Regenerating",
            Step::Cropping => "Cropping",
            Step::Storing => "Saving",
        }
    }

    /// Every step, in pipeline order.
    pub fn all() -> (r: [Step; 6])
        ensures
            forall|i: int| 0 <= i < 6 ==> step_index(#[trigger] r@[i]) == i,
    {
        [
            Step::Receiving,
            Step::Fingerprinting,
            Step::Scanning,
            Step::Regenerating,
            Step::Cropping,
            Step::Storing,
        ]
    }
}

/// A job's public state, exactly as the browser polls it.
#[derive(Clone, Debug)]
pub enum Progress {
    /// Still going; `step` is the one currently running.
    Running { step: Step },
    /// Finished; the son is published.
    Done { son: Box<Son> },
    /// Refused, with a line fit to show a visitor.
    Rejected { reason: String },
    /// Broke; also what a client gets for an id that no longer exists.
    Failed { message: String },
}

/// A copy of an optional string.
pub fn copy_opt_string(s: &Option<String>) -> (r: Option<String>)
    ensures
        r == *s,
{
    match s {
        Some(v) => Some(v.clone()),
        None => None,
    }
}

impl Uploader {
    /// A copy of this uploader.
    pub fn copy(&self) -> (r: Self)
        ensures
            r == *self,
    {
        Uploader { display_name: self.display_name.clone(), avatar_url: copy_opt_string(&self.avatar_url) }
    }
}

impl Son {
    /// A copy of this son.
    pub fn copy(&self) -> (r: Self)
        ensures
            r == *self,
    {
        Son {
            id: self.id.clone(),
            slug: self.slug.clone(),
            title: self.title.clone(),
            orig_url: self.orig_url.clone(),
            thumb_url: self.thumb_url.clone(),
            width: self.width,
            height: self.height,
            created_at: self.created_at.clone(),
            is_public: self.is_public,
            reports: self.reports,
            likes: self.likes,
            liked_by_me: self.liked_by_me,
            uploader: match &self.uploader {
                Some(u) => Some(u.copy()),
                None => None,
            },
        }
    }
}

impl Progress {
    /// A copy of this state.
    pub fn copy(&self) -> (r: Self)
        ensures
            r == *self,
    {
        match self {
            Progress::Running { step } => Progress::Running { step: *step },
            Progress::Done { son } => Progress::Done { son: Box::new(son.copy()) },
            Progress::Rejected { reason } => Progress::Rejected { reason: reason.clone() },
            Progress::Failed { message } => Progress::Failed { message: message.clone() },
        }
    }
}

/// A page of sons plus the cursor needed to ask for the next one.
#[derive(Clone, Debug)]
pub struct SonPage {
    pub sons: Vec<Son>,
    /// `None` when the gallery is exhausted.
    pub next_cursor: Option<String>,
}

pub const PAGE_SIZE: i64 = 24;

/// Gallery ordering.
#[derive(Clone, Copy, Debug, PartialEq, Eq, Structural)]
pub enum Sort {
    Newest,
    MostLiked,
    /// A-Z by title.
    Az,
}

pub open spec fn spec_sort_str(s: Sort) -> Seq<char> {
    match s {
        Sort::Newest => "newest"@,
        Sort::MostLiked => "liked"@,
        Sort::Az => "az"@,
    }
}

pub open spec fn spec_sort_from_str(s: Seq<char>) -> Sort {
    if s == "liked"@ {
        Sort::MostLiked
    } else if s == "az"@ {
        Sort::Az
    } else {
        Sort::Newest
    }
}

/// An ordering's wire name reads back as the same ordering.
pub proof fn lemma_sort_names_round_trip(s: Sort)
    ensures
        spec_sort_from_str(spec_sort_str(s)) == s,
{
    reveal_strlit("newest");
    reveal_strlit("liked");
    reveal_strlit("az");
    assert("newest"@.len() == 6 && "liked"@.len() == 5 && "az"@.len() == 2);
}

impl Sort {
    /// The wire name of an ordering.
    pub fn as_str(&self) -> (r: &'static str)
        ensures
            r@ == spec_sort_str(*self),
    {
        match self {
            Sort::Newest => "newest",
            Sort::MostLiked => "liked",
            Sort::Az => "az",
        }
    }

    /// Parses a wire name; anything unknown is `Newest`.
    pub fn from_str_or_default(s: &str) -> (r: Self)
        ensures
            r == spec_sort_from_str(s@),
    {
        let c = chars_of(s);
        if equals(&c, "liked") {
            Sort::MostLiked
        } else if equals(&c, "az") {
            Sort::Az
        } else {
            Sort::Newest
        }
    }
}

impl Default for Sort {
    fn default() -> (r: Self)
        ensures
            r == Sort::Newest,
    {
        Sort::Newest
    }
}

/// Whether screening is actually working, as shown on the admin page.
#[derive(Clone, Debug)]
pub struct ScreeningStatus {
    /// `false` when screening is switched off, not broken.
    pub configured: bool,
    pub usable: u32,
    pub initialised: u32,
    /// Present when the sidecar could not be reached or reported an error.
    pub error: Option<String>,
}

impl Default for ScreeningStatus {
    fn default() -> (r: Self)
        ensures
            !r.configured && r.usable == 0 && r.initialised == 0 && r.error is None,
    {
        ScreeningStatus { configured: false, usable: 0, initialised: 0, error: None }
    }
}

/// A signed-in user, as far as the UI is concerned: no email, no Google
/// subject id.
#[derive(Clone, Debug)]
pub struct User {
    pub id: String,
    pub display_name: String,
    pub avatar_url: Option<String>,
    pub is_admin: bool,
}

/// One row of `/leaderboard`.
#[derive(Clone, Debug)]
pub struct LeaderboardEntry {
    pub display_name: String,
    pub avatar_url: Option<String>,
    pub upload_count: i64,
}

/// Why a son was reported.
#[derive(Clone, Copy, Debug, PartialEq, Eq, Structural)]
pub enum ReportReason {
    NotSon,
    Spam,
    Porn,
    Stolen,
}

pub open spec fn spec_reason_str(r: ReportReason) -> Seq<char> {
    match r {
        ReportReason::NotSon => "not_son"@,
        ReportReason::Spam => "spam"@,
        ReportReason::Porn => "porn"@,
        ReportReason::Stolen => "stolen"@,
    }
}

pub open spec fn spec_reason_label(r: ReportReason) -> Seq<char> {
    match r {
        ReportReason::NotSon => "not a son"@,
        ReportReason::Spam => "spam"@,
        ReportReason::Porn => "porn / NSFW"@,
        ReportReason::Stolen => "stolen / not theirs to post"@,
    }
}

pub open spec fn spec_reason_from_str(s: Seq<char>) -> ReportReason {
    if s == "spam"@ {
        ReportReason::Spam
    } else if s == "porn"@ {
        ReportReason::Porn
    } else if s == "stolen"@ {
        ReportReason::Stolen
    } else {
        ReportReason::NotSon
    }
}

/// A reason's wire name reads back as the same reason.
pub proof fn lemma_reason_names_round_trip(r: ReportReason)
    ensures
        spec_reason_from_str(spec_reason_str(r)) == r,
{
    reveal_strlit("not_son");
    reveal_strlit("spam");
    reveal_strlit("porn");
    reveal_strlit("stolen");
    assert("not_son"@.len() == 7 && "spam"@.len() == 4 && "porn"@.len() == 4 && "stolen"@.len() == 6);
    assert("spam"@[0] != "porn"@[0]);
}

impl ReportReason {
    /// The wire and database name of a reason.
    pub fn as_str(&self) -> (r: &'static str)
        ensures
            r@ == spec_reason_str(*self),
    {
        match self {
            ReportReason::NotSon => "not_son",
            ReportReason::Spam => "spam",
            ReportReason::Porn => "porn",
            ReportReason::Stolen => "stolen",
        }
    }

    /// What the report form shows for a reason.
    pub fn label(&self) -> (r: &'static str)
        ensures
            r@ == spec_reason_label(*self),
    {
        match self {
            ReportReason::NotSon => "not a son",
            ReportReason::Spam => "spam",
            ReportReason::Porn => "porn / NSFW",
            ReportReason::Stolen => "stolen / not theirs to post",
        }
    }

    /// Every reason, in the order the form lists them.
    pub fn all() -> (r: [ReportReason; 4])
        ensures
            r@ == seq![ReportReason::NotSon, ReportReason::Spam, ReportReason::Porn, ReportReason::Stolen],
    {
        let r = [ReportReason::NotSon, ReportReason::Spam, ReportReason::Porn, ReportReason::Stolen];
        assert(r@ =~= seq![ReportReason::NotSon, ReportReason::Spam, ReportReason::Porn, ReportReason::Stolen]);
        r
    }

    /// Parses a wire name; anything unknown is `NotSon`.
    pub fn from_str_or_default(s: &str) -> (r: Self)
        ensures
            r == spec_reason_from_str(s@),
    {
        let c = chars_of(s);
        if equals(&c, "spam") {
            ReportReason::Spam
        } else if equals(&c, "porn") {
            ReportReason::Porn
        } else if equals(&c, "stolen") {
            ReportReason::Stolen
        } else {
            ReportReason::NotSon
        }
    }
}

/// One report against a son, as shown in the admin queue.
#[derive(Clone, Debug)]
pub struct ReportDetail {
    pub reason: String,
    pub message: Option<String>,
    pub created_at: String,
}

/// A son with at least one report, plus every report against it.
#[derive(Clone, Debug)]
pub struct FlaggedSon {
    pub son: Son,
    pub reports: Vec<ReportDetail>,
}

/// Reply from `POST /api/upload`.
#[derive(Clone, Debug)]
pub enum UploadResult {
    /// Accepted for processing; carries a job id to poll.
    Queued { job: String },
    /// Published straight away.
    Published { son: Son },
    /// Refused before anything was stored.
    Rejected { reason: String },
    Error { message: String },
}

} // verus!
