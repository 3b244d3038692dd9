//! The small stateful pieces of the pages: the like button's optimistic
//! toggle, the top progress bar's in-flight count, the share button, the
//! search page, the leaderboard's podium, and the admin page's wording.
use vstd::prelude::*;
use crate::models::ScreeningStatus;
use crate::text::{push_str, push_decimal, decimal, chars_of, string_of, starts, starts_with, trim_end, trim_end_char,
    trim, trimmed, equals};

verus! {

// ---------------------------------------------------------------------------
// Like button

/// The like button as drawn: the count, whether the visitor likes it, and
/// whether a toggle is on its way to the server.
#[derive(Clone, Copy, Debug, PartialEq, Eq, Structural)]
pub struct LikeButton {
    pub count: i64,
    pub liked: bool,
    pub busy: bool,
}

/// A click: ignored while a toggle is in flight; otherwise the button flips
/// at once, never showing a negative count, and remembers what it showed so
/// a failure can put it back.
pub fn like_click(b: LikeButton) -> (r: Option<(LikeButton, LikeButton)>)
    requires
        b.count < i64::MAX,
    ensures
        b.busy ==> r is None,
        !b.busy ==> r == Some((
            LikeButton {
                count: if b.liked { if b.count > 1 { (b.count - 1) as i64 } else { 0 } } else { (b.count + 1) as i64 },
                liked: !b.liked,
                busy: true,
            },
            b,
        )),
{
    if b.busy {
        return None;
    }
    let count = if b.liked {
        if b.count > 1 { b.count - 1 } else { 0 }
    } else {
        b.count + 1
    };
    Some((LikeButton { count, liked: !b.liked, busy: true }, b))
}

/// The button once the server has answered: its count and state win; on
/// failure the button goes back to what it showed before the click.
pub open spec fn spec_settle(before: LikeButton, answer: Option<(i64, bool)>) -> LikeButton {
    match answer {
        Some((count, liked)) => LikeButton { count, liked, busy: false },
        None => LikeButton { busy: false, ..before },
    }
}

pub fn like_settle(before: LikeButton, answer: Option<(i64, bool)>) -> (r: LikeButton)
    ensures
        r == spec_settle(before, answer),
{
    match answer {
        Some((count, liked)) => LikeButton { count, liked, busy: false },
        None => LikeButton { count: before.count, liked: before.liked, busy: false },
    }
}

/// A toggle that fails leaves the button exactly as it was before the
/// click.
pub proof fn lemma_failed_like_changes_nothing(b: LikeButton)
    requires
        !b.busy,
    ensures
        spec_settle(b, None) == b,
{
}

pub fn like_label(liked: bool) -> (r: &'static str)
    ensures
        r@ == (if liked { "Un-cry over this son"@ } else { "Cry over this son"@ }),
{
    if liked { "Un-cry over this son" } else { "Cry over this son" }
}

// ---------------------------------------------------------------------------
// Top progress bar

/// How many navigations and fetches are in flight; the bar shows while
/// any is.
#[derive(Clone, Copy, Debug, PartialEq, Eq, Structural)]
pub struct Loading {
    pub inflight: usize,
}

impl Loading {
    pub fn new() -> (r: Loading)
        ensures
            r.inflight == 0,
    {
        Loading { inflight: 0 }
    }

    pub fn start(&mut self)
        requires
            old(self).inflight < usize::MAX,
        ensures
            final(self).inflight == spec_started(old(self).inflight),
    {
        self.inflight = self.inflight + 1;
    }

    /// One fewer in flight; an unmatched finish stays at zero.
    pub fn finish(&mut self)
        ensures
            final(self).inflight == spec_finished(old(self).inflight),
    {
        if self.inflight > 0 {
            self.inflight = self.inflight - 1;
        }
    }

    pub fn active(&self) -> (r: bool)
        ensures
            r == (self.inflight > 0),
    {
        self.inflight > 0
    }
}

pub open spec fn spec_started(n: usize) -> int {
    n + 1
}

pub open spec fn spec_finished(n: usize) -> int {
    if n > 0 { n - 1 } else { 0 }
}

/// A start and its finish leave the count where it was, and a stray finish
/// never takes it below zero.
pub proof fn lemma_start_then_finish(n: usize)
    requires
        n < usize::MAX,
    ensures
        spec_finished(spec_started(n) as usize) == n,
        spec_finished(0) == 0,
{
}

// ---------------------------------------------------------------------------
// Share button

/// A page URL made absolute against the browser's origin, unless it
/// already is.
pub open spec fn spec_absolute_here(url: Seq<char>, origin: Seq<char>) -> Seq<char> {
    if starts(url, "http://"@) || starts(url, "https://"@) { url } else { trim_end(origin, '/') + url }
}

pub fn absolute_here(url: &str, origin: &str) -> (r: String)
    ensures
        r@ == spec_absolute_here(url@, origin@),
{
    let u = chars_of(url);
    if starts_with(&u, "http://") || starts_with(&u, "https://") {
        return string_of(&u);
    }
    let o = chars_of(origin);
    let t = trim_end_char(&o, '/');
    let mut r = string_of(&t);
    push_str(&mut r, url);
    r
}

/// What the share button says: a confirmation, a failure, or what a click
/// will do.
pub fn share_label(copied: bool, failed: bool, can_share: bool, can_copy: bool) -> (r: &'static str)
    ensures
        r@ == (if copied { "Link copied"@ } else if failed { "Couldn't copy"@ } else if can_share { "Share"@ }
            else if can_copy { "Copy link"@ } else { "Copying needs a secure connection"@ }),
{
    if copied {
        "Link copied"
    } else if failed {
        "Couldn't copy"
    } else if can_share {
        "Share"
    } else if can_copy {
        "Copy link"
    } else {
        "Copying needs a secure connection"
    }
}

// ---------------------------------------------------------------------------
// Search and site chrome

/// The search page's document title.
pub fn search_title(q: &str) -> (r: String)
    ensures
        r@ == (if q@.len() == 0 { "search \u{2014} son collection"@ } else { "\""@ + q@ + "\" \u{2014} son collection"@ }),
{
    let mut r = String::new();
    if q.is_empty() {
        push_str(&mut r, "search \u{2014} son collection");
    } else {
        push_str(&mut r, "\"");
        push_str(&mut r, q);
        push_str(&mut r, "\" \u{2014} son collection");
    }
    r
}

/// Whether a query is worth sending: blank ones show nothing.
pub fn should_search(q: &str) -> (r: bool)
    ensures
        r == (trimmed(q@).len() > 0),
{
    let c = chars_of(q);
    trim(&c).len() > 0
}

/// The footer shows everywhere but the gallery and a son's page, where it
/// would sit under an endless scroll.
pub fn shows_footer(path: &str) -> (r: bool)
    ensures
        r == !(path@ == "/"@ || starts(path@, "/son/"@)),
{
    let c = chars_of(path);
    !(equals(&c, "/") || starts_with(&c, "/son/"))
}

/// The analytics beacon's `data-cf-beacon` attribute for a token.
pub fn beacon_attr(token: &str) -> (r: String)
    ensures
        r@ == "{\"token\": \""@ + token@ + "\"}"@,
{
    let mut r = String::new();
    push_str(&mut r, "{\"token\": \"");
    push_str(&mut r, token);
    push_str(&mut r, "\"}");
    r
}

// ---------------------------------------------------------------------------
// Leaderboard

pub open spec fn spec_rank_class(rank: usize) -> Seq<char> {
    if rank == 1 {
        "w-5 flex-none text-right text-[0.8125rem] font-semibold tabular-nums text-accent"@
    } else if rank == 2 || rank == 3 {
        "w-5 flex-none text-right text-[0.8125rem] font-semibold tabular-nums text-accent-muted"@
    } else {
        "w-5 flex-none text-right text-[0.8125rem] tabular-nums text-ink-3"@
    }
}

/// The rank number's style: first place, the rest of the podium, everyone
/// else.
pub fn rank_class(rank: usize) -> (r: &'static str)
    ensures
        r@ == spec_rank_class(rank),
{
    if rank == 1 {
        "w-5 flex-none text-right text-[0.8125rem] font-semibold tabular-nums text-accent"
    } else if rank == 2 || rank == 3 {
        "w-5 flex-none text-right text-[0.8125rem] font-semibold tabular-nums text-accent-muted"
    } else {
        "w-5 flex-none text-right text-[0.8125rem] tabular-nums text-ink-3"
    }
}

/// The podium has three tiers: first, second and third together, and the
/// rest.
pub proof fn lemma_podium_tiers(rank: usize)
    ensures
        spec_rank_class(1) != spec_rank_class(2),
        spec_rank_class(2) != spec_rank_class(4),
        spec_rank_class(1) != spec_rank_class(4),
        spec_rank_class(3) == spec_rank_class(2),
        rank >= 4 ==> spec_rank_class(rank) == spec_rank_class(4),
{
    reveal_strlit("w-5 flex-none text-right text-[0.8125rem] font-semibold tabular-nums text-accent");
    reveal_strlit("w-5 flex-none text-right text-[0.8125rem] font-semibold tabular-nums text-accent-muted");
    reveal_strlit("w-5 flex-none text-right text-[0.8125rem] tabular-nums text-ink-3");
    assert(spec_rank_class(1).len() != spec_rank_class(2).len());
    assert(spec_rank_class(2).len() != spec_rank_class(4).len());
    assert(spec_rank_class(1).len() != spec_rank_class(4).len());
}

/// A leaderboard row's style: only first place gets the warm row.
pub fn row_class(rank: usize) -> (r: &'static str)
    ensures
        r@ == (if rank == 1 {
            "flex items-center gap-3 rounded border border-accent-line bg-accent-veil px-3.5 py-2.5"@
        } else {
            "flex items-center gap-3 rounded border border-line bg-surface px-3.5 py-2.5"@
        }),
{
    if rank == 1 {
        "flex items-center gap-3 rounded border border-accent-line bg-accent-veil px-3.5 py-2.5"
    } else {
        "flex items-center gap-3 rounded border border-line bg-surface px-3.5 py-2.5"
    }
}

/// "son" for one upload, "sons" otherwise.
pub fn count_unit(n: i64) -> (r: &'static str)
    ensures
        r@ == (if n == 1 { "son"@ } else { "sons"@ }),
{
    if n == 1 { "son" } else { "sons" }
}

// ---------------------------------------------------------------------------
// Admin page

/// How the admin page reports screening.
#[derive(Debug)]
pub struct ScreeningView {
    /// One of "Off", "Working" or "Down", as a headline.
    pub headline: String,
    /// What is wrong, when it is down.
    pub detail: Option<String>,
    /// What that means for uploads, when it is down.
    pub note: Option<String>,
}

/// The admin page's screening panel, from the sidecar's status.
pub fn screening_view(s: &ScreeningStatus) -> (r: ScreeningView)
    ensures
        !s.configured ==> r.headline@ == "Off \u{2014} GEMINI_URL is not set. Uploads publish unscreened."@
            && r.detail is None && r.note is None,
        s.configured && s.usable > 0 ==>
            r.headline@ == "Working \u{2014} "@ + decimal(s.usable as nat) + " account(s) answering."@
            && r.detail is None && r.note is None,
        s.configured && s.usable == 0 ==> r.headline@ == "Down"@
            && (r.detail matches Some(d) && d@ == match s.error {
                Some(e) => e@,
                None => decimal(s.initialised as nat)
                    + " account(s) started, none answering \u{2014} the cookies have expired."@,
            })
            && (r.note matches Some(n) && n@ == "Uploads are being published unscreened."@),
{
    let mut h = String::new();
    if !s.configured {
        push_str(&mut h, "Off \u{2014} GEMINI_URL is not set. Uploads publish unscreened.");
        return ScreeningView { headline: h, detail: None, note: None };
    }
    if s.usable > 0 {
        push_str(&mut h, "Working \u{2014} ");
        push_decimal(&mut h, s.usable as u64);
        push_str(&mut h, " account(s) answering.");
        return ScreeningView { headline: h, detail: None, note: None };
    }
    push_str(&mut h, "Down");
    let detail = match &s.error {
        Some(e) => e.clone(),
        None => {
            let mut d = String::new();
            push_decimal(&mut d, s.initialised as u64);
            push_str(&mut d, " account(s) started, none answering \u{2014} the cookies have expired.");
            d
        }
    };
    let mut n = String::new();
    push_str(&mut n, "Uploads are being published unscreened.");
    ScreeningView { headline: h, detail: Some(detail), note: Some(n) }
}

/// Whether the cookie box holds anything to send.
pub fn cookies_worth_sending(v: &str) -> (r: bool)
    ensures
        r == (trimmed(v@).len() > 0),
{
    let c = chars_of(v);
    trim(&c).len() > 0
}

/// The reply line after sending cookies.
pub fn cookies_reply(res: &Result<u32, String>) -> (r: String)
    ensures
        match res {
            Ok(n) => r@ == decimal(*n as nat) + " account(s) ready"@,
            Err(e) => r@ == e@,
        },
{
    match res {
        Ok(n) => {
            let mut r = String::new();
            push_decimal(&mut r, *n as u64);
            push_str(&mut r, " account(s) ready");
            r
        }
        Err(e) => e.clone(),
    }
}

/// A queue row's visibility chip and the button that flips it.
pub fn visibility_words(is_public: bool) -> (r: (&'static str, &'static str))
    ensures
        r.0@ == (if is_public { "visible"@ } else { "hidden"@ }),
        r.1@ == (if is_public { "hide"@ } else { "unhide"@ }),
{
    if is_public { ("visible", "hide") } else { ("hidden", "unhide") }
}

/// What a report's send button settles to.
pub fn report_reply(sent: Option<Result<bool, ()>>) -> (r: Option<&'static str>)
    ensures
        match sent {
            None => r is None,
            Some(Ok(true)) => r matches Some(s) && s@ == "Reported. Someone will look."@,
            Some(Ok(false)) => r matches Some(s) && s@ == "Sign in to report this"@,
            Some(Err(())) => r matches Some(s) && s@ == "Didn't send. Try again."@,
        },
{
    match sent {
        None => None,
        Some(Ok(true)) => Some("Reported. Someone will look."),
        Some(Ok(false)) => Some("Sign in to report this"),
        Some(Err(())) => Some("Didn't send. Try again."),
    }
}

} // verus!
