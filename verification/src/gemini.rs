//! The screening sidecar's answers and what the site makes of them. The
//! HTTP calls themselves are made by the server; everything decided about
//! what came back is here.
use vstd::prelude::*;
use crate::models::ScreeningStatus;
use crate::raster::Rgba;
use crate::codec::{load_rgba, loaded};
use crate::text::{push_str, chars_of, string_of, trim_end, trim_end_char, starts, starts_with};

verus! {

/// What the model said about an image. Not a decision: `acceptable`
/// applies the policy.
#[derive(Debug)]
pub struct Verdict {
    /// `PASS` or `FAIL`, or empty if the model did not answer in the shape
    /// asked.
    pub verdict: String,
    /// `SON` or `NOTSON`, likewise.
    pub topic: String,
}

pub open spec fn spec_acceptable(verdict: Seq<char>, topic: Seq<char>) -> Result<(), Seq<char>> {
    if !starts(verdict, "PASS"@) {
        Err("This image was not accepted."@)
    } else if starts(topic, "NOTSON"@) {
        Err("That doesn't look like a son."@)
    } else {
        Ok(())
    }
}

/// Screening fails closed, and speaks in the site's own words: anything but
/// an explicit `PASS` is a refusal, a `NOTSON` topic is a refusal even after
/// a pass, and every refusal's reason is one of two fixed sentences, so
/// nothing the model writes reaches a visitor.
pub proof fn lemma_screening_fails_closed(verdict: Seq<char>, topic: Seq<char>)
    ensures
        !starts(verdict, "PASS"@) ==> spec_acceptable(verdict, topic) is Err,
        starts(topic, "NOTSON"@) ==> spec_acceptable(verdict, topic) is Err,
        spec_acceptable(verdict, topic) is Ok <==> (starts(verdict, "PASS"@) && !starts(topic, "NOTSON"@)),
        spec_acceptable(verdict, topic) matches Err(m) ==>
            (m == "This image was not accepted."@ || m == "That doesn't look like a son."@),
{
}

impl Verdict {
    /// `Ok(())` to continue, `Err(reason)` to refuse with a line fit to show
    /// a visitor. Fails closed: anything but an explicit PASS is a refusal,
    /// and the reasons are written here, never echoed from the model.
    pub fn acceptable(&self) -> (r: Result<(), String>)
        ensures
            match r {
                Ok(()) => spec_acceptable(self.verdict@, self.topic@) is Ok,
                Err(m) => spec_acceptable(self.verdict@, self.topic@) == Err::<(), Seq<char>>(m@),
            },
    {
        let v = chars_of(self.verdict.as_str());
        if !starts_with(&v, "PASS") {
            let mut m = String::new();
            push_str(&mut m, "This image was not accepted.");
            return Err(m);
        }
        let t = chars_of(self.topic.as_str());
        if starts_with(&t, "NOTSON") {
            let mut m = String::new();
            push_str(&mut m, "That doesn't look like a son.");
            return Err(m);
        }
        Ok(())
    }
}

/// Why a call could not produce an answer. Distinct from a refusal: nothing
/// was decided about the image.
#[derive(Debug)]
pub struct Unavailable(pub String);

/// The sidecar's base URL from the environment's value: switched off when
/// unset or empty.
pub fn configured_url(var: Option<String>) -> (r: Option<String>)
    ensures
        match var {
            Some(u) => if u@.len() > 0 { r == Some(u) } else { r is None },
            None => r is None,
        },
{
    match var {
        Some(u) => {
            if !u.as_str().is_empty() {
                Some(u)
            } else {
                None
            }
        }
        None => None,
    }
}

/// A sidecar endpoint: the base without trailing slashes, then the path.
pub fn endpoint(base: &str, path: &str) -> (r: String)
    ensures
        r@ == trim_end(base@, '/') + path@,
{
    let b = chars_of(base);
    let t = trim_end_char(&b, '/');
    let mut r = string_of(&t);
    push_str(&mut r, path);
    r
}

/// Why both tries of a judge call failed: the second reason, with the first
/// kept in brackets.
pub open spec fn spec_retry_reason(first: Seq<char>, second: Seq<char>) -> Seq<char> {
    second + " (first attempt: "@ + first + ")"@
}

pub fn retry_reason(first: &str, second: &str) -> (r: Unavailable)
    ensures
        r.0@ == spec_retry_reason(first@, second@),
{
    let mut m = String::new();
    push_str(&mut m, second);
    push_str(&mut m, " (first attempt: ");
    push_str(&mut m, first);
    push_str(&mut m, ")");
    Unavailable(m)
}

/// The string under `"reason"` when `body` is a JSON object that has one.
pub uninterp spec fn json_reason(body: Seq<u8>) -> Option<Seq<char>>;

/// `serde_json::from_slice::<serde_json::Value>`, then the `"reason"` member
/// when it is a string. The answer is named, not stated: it depends on the
/// bytes alone.
#[verifier::external_body]
fn json_reason_of(body: &[u8]) -> (r: Option<String>)
    ensures
        match r {
            Some(s) => json_reason(body@) == Some(s@),
            None => json_reason(body@) is None,
        },
{
    serde_json::from_slice::<serde_json::Value>(body)
        .ok()
        .and_then(|v| v.get("reason").and_then(|r| r.as_str()).map(str::to_owned))
}

/// The line to show for a failed sidecar call, given the reason it sent, if
/// any.
pub fn reason_or_default(found: Option<String>) -> (r: String)
    ensures
        match found {
            Some(s) => r@ == s@,
            None => r@ == "screening failed"@,
        },
{
    match found {
        Some(s) => s,
        None => {
            let mut r = String::new();
            push_str(&mut r, "screening failed");
            r
        }
    }
}

/// The reason in a failed call's body, or a generic line.
pub fn reason(body: &[u8]) -> (r: String)
    ensures
        match json_reason(body@) {
            Some(s) => r@ == s,
            None => r@ == "screening failed"@,
        },
{
    reason_or_default(json_reason_of(body))
}

/// The squared image from the sidecar's reply: refused calls give the
/// sidecar's reason, and a body that does not decode (whatever its declared
/// type) is unavailable too.
pub fn square_result(success: bool, body: &[u8]) -> (r: Result<Rgba, Unavailable>)
    ensures
        !success ==> (r matches Err(Unavailable(m)) && m@ == match json_reason(body@) {
            Some(s) => s,
            None => "screening failed"@,
        }),
        success ==> match loaded(body@) {
            Ok((w, h, d)) => r matches Ok(img) && img.wf() && img.width == w && img.height == h && img.data@ == d,
            Err(e) => r matches Err(Unavailable(m)) && m@ == "sidecar returned undecodable image: "@ + e,
        },
{
    if !success {
        return Err(Unavailable(reason(body)));
    }
    match load_rgba(body) {
        Ok(img) => Ok(img),
        Err(e) => {
            let mut m = String::new();
            push_str(&mut m, "sidecar returned undecodable image: ");
            push_str(&mut m, e.as_str());
            Err(Unavailable(m))
        }
    }
}

/// What came back from the sidecar's health endpoint.
#[derive(Debug)]
pub enum Health {
    /// Accounts answering right now, and accounts that started.
    Counts { accounts: u32, initialised: u32 },
    /// A reply that did not parse, with the parser's message.
    Unreadable(String),
    /// No reply at all, with the transport's message.
    Unreachable(String),
}

/// The admin page's screening status: not configured, configured with
/// counts, or configured with the error that stopped the health check.
pub fn screening_status(configured: bool, health: Health) -> (r: ScreeningStatus)
    ensures
        r.configured == configured,
        !configured ==> r.usable == 0 && r.initialised == 0 && r.error is None,
        configured ==> match health {
            Health::Counts { accounts, initialised } =>
                r.usable == accounts && r.initialised == initialised && r.error is None,
            Health::Unreadable(e) =>
                r.usable == 0 && r.initialised == 0 && (r.error matches Some(m) && m@ == "unreadable health: "@ + e@),
            Health::Unreachable(e) =>
                r.usable == 0 && r.initialised == 0 && (r.error matches Some(m) && m@ == "sidecar unreachable: "@ + e@),
        },
{
    let mut out = ScreeningStatus { configured: false, usable: 0, initialised: 0, error: None };
    if !configured {
        return out;
    }
    out.configured = true;
    match health {
        Health::Counts { accounts, initialised } => {
            out.usable = accounts;
            out.initialised = initialised;
        }
        Health::Unreadable(e) => {
            let mut m = String::new();
            push_str(&mut m, "unreadable health: ");
            push_str(&mut m, e.as_str());
            out.error = Some(m);
        }
        Health::Unreachable(e) => {
            let mut m = String::new();
            push_str(&mut m, "sidecar unreachable: ");
            push_str(&mut m, e.as_str());
            out.error = Some(m);
        }
    }
    out
}

/// What a cookie swap reply means: on success the number of accounts that
/// came up (or why the reply did not parse), otherwise the sidecar's own
/// reason, or the status when it gave none.
pub fn cookies_outcome(success: bool, accepted: Result<u32, String>, refused: Option<String>, status: &str)
    -> (r: Result<u32, String>)
    ensures
        success ==> match accepted {
            Ok(n) => r == Ok::<u32, String>(n),
            Err(e) => r matches Err(m) && m@ == "unreadable reply: "@ + e@,
        },
        !success ==> match refused {
            Some(why) => r matches Err(m) && m@ == why@,
            None => r matches Err(m) && m@ == "sidecar refused ("@ + status@ + ")"@,
        },
{
    if success {
        match accepted {
            Ok(n) => Ok(n),
            Err(e) => {
                let mut m = String::new();
                push_str(&mut m, "unreadable reply: ");
                push_str(&mut m, e.as_str());
                Err(m)
            }
        }
    } else {
        match refused {
            Some(why) => Err(why),
            None => {
                let mut m = String::new();
                push_str(&mut m, "sidecar refused (");
                push_str(&mut m, status);
                push_str(&mut m, ")");
                Err(m)
            }
        }
    }
}

} // verus!
