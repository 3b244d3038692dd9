//! A son's own page: the one-line description reused by every preview tag,
//! the byline date, the ImageObject JSON-LD, the page's links, and the
//! sideways swipe to the neighbouring son.
use vstd::prelude::*;
use crate::models::Son;
use crate::number::digits_value;
use crate::seo::{absolute, json_escape, spec_absolute, spec_json_escape};
use crate::text::{push_str, push_char, push_decimal, decimal, chars_of, string_of, slice, find_char, first_index,
    push_chars, all_digits, is_digit, digits_in};

verus! {

/// A son in one line, for the description, `og:description` and
/// `twitter:description` alike.
pub open spec fn spec_describe(s: Son) -> Seq<char> {
    s.title@ + " \u{2014} in the son collection."@ + match s.uploader {
        Some(u) => " Contributed by "@ + u.display_name@ + "."@,
        None => Seq::empty(),
    }
}

pub fn describe(s: &Son) -> (r: String)
    ensures
        r@ == spec_describe(*s),
{
    let mut r = s.title.clone();
    push_str(&mut r, " \u{2014} in the son collection.");
    match &s.uploader {
        Some(u) => {
            let ghost before = r@;
            push_str(&mut r, " Contributed by ");
            push_str(&mut r, u.display_name.as_str());
            push_str(&mut r, ".");
            proof {
                assert(r@ =~= before + (" Contributed by "@ + u.display_name@ + "."@));
            }
        }
        None => {
            proof { assert(r@ =~= r@ + Seq::<char>::empty()); }
        }
    }
    r
}

/// `s` split at each `-`, when that gives exactly three parts.
pub open spec fn three_parts(s: Seq<char>) -> Option<(Seq<char>, Seq<char>, Seq<char>)> {
    match first_index(s, '-') {
        None => None,
        Some(i) => {
            let r1 = s.skip(i + 1);
            match first_index(r1, '-') {
                None => None,
                Some(j) => {
                    let r2 = r1.skip(j + 1);
                    match first_index(r2, '-') {
                        Some(_) => None,
                        None => Some((s.take(i), r1.take(j), r2)),
                    }
                }
            }
        }
    }
}

/// The short English name of month `m`, 1 to 12.
pub open spec fn month_name(m: nat) -> Seq<char> {
    if m == 1 { "Jan"@ } else if m == 2 { "Feb"@ } else if m == 3 { "Mar"@ } else if m == 4 { "Apr"@ }
    else if m == 5 { "May"@ } else if m == 6 { "Jun"@ } else if m == 7 { "Jul"@ } else if m == 8 { "Aug"@ }
    else if m == 9 { "Sep"@ } else if m == 10 { "Oct"@ } else if m == 11 { "Nov"@ } else { "Dec"@ }
}

/// Whether a date's parts are shaped `YYYY-MM-DD`: four ASCII digits, then
/// two, then two, with a month from 1 to 12.
pub open spec fn ymd_shaped(y: Seq<char>, m: Seq<char>, d: Seq<char>) -> bool {
    &&& y.len() == 4 && all_digits(y)
    &&& m.len() == 2 && all_digits(m)
    &&& d.len() == 2 && all_digits(d)
    &&& 1 <= digits_value(m) <= 12
}

/// `2026-08-12` as `Aug 12, 2026`, the day without its leading zero.
/// Anything not shaped like `YYYY-MM-DD` comes back as it was.
pub open spec fn spec_pretty_date(ymd: Seq<char>) -> Seq<char> {
    match three_parts(ymd) {
        Some((y, m, d)) =>
            if ymd_shaped(y, m, d) {
                month_name(digits_value(m)) + " "@ + decimal(digits_value(d)) + ", "@ + y
            } else {
                ymd
            },
        None => ymd,
    }
}

/// The value of two ASCII digits.
fn two_digits(s: &[char]) -> (r: u64)
    requires
        s@.len() == 2,
        all_digits(s@),
    ensures
        r as nat == digits_value(s@),
        r < 100,
{
    let a = (s[0] as u32 - '0' as u32) as u64;
    let b = (s[1] as u32 - '0' as u32) as u64;
    proof {
        assert(s@.drop_last() =~= seq![s@[0]]);
        assert(seq![s@[0]].drop_last() =~= Seq::<char>::empty());
        assert(is_digit(s@[0]) && is_digit(s@[1]));
        assert(digits_value(Seq::<char>::empty()) == 0);
        assert(seq![s@[0]].last() == s@[0]);
        assert(digits_value(seq![s@[0]]) == ((s@[0] as u32) - ('0' as u32)) as nat);
        assert(s@.last() == s@[1]);
        assert(digits_value(s@) == digits_value(seq![s@[0]]) * 10 + ((s@[1] as u32) - ('0' as u32)) as nat);
    }
    a * 10 + b
}

fn month_name_of(m: u64) -> (r: &'static str)
    requires
        1 <= m <= 12,
    ensures
        r@ == month_name(m as nat),
{
    if m == 1 { "Jan" } else if m == 2 { "Feb" } else if m == 3 { "Mar" } else if m == 4 { "Apr" }
    else if m == 5 { "May" } else if m == 6 { "Jun" } else if m == 7 { "Jul" } else if m == 8 { "Aug" }
    else if m == 9 { "Sep" } else if m == 10 { "Oct" } else if m == 11 { "Nov" } else { "Dec" }
}

pub fn pretty_date(ymd: &str) -> (r: String)
    ensures
        r@ == spec_pretty_date(ymd@),
{
    let s = chars_of(ymd);
    let fi = find_char(&s, '-');
    if fi.is_none() {
        return string_of(&s);
    }
    let i = fi.unwrap();
    assert(i < s.len());
    let r1 = slice(&s, i + 1, s.len());
    proof { assert(r1@ =~= s@.skip(i as int + 1)); }
    let fj = find_char(&r1, '-');
    if fj.is_none() {
        return string_of(&s);
    }
    let j = fj.unwrap();
    assert(j < r1.len());
    let r2 = slice(&r1, j + 1, r1.len());
    proof { assert(r2@ =~= r1@.skip(j as int + 1)); }
    if find_char(&r2, '-').is_some() {
        return string_of(&s);
    }
    let y = slice(&s, 0, i);
    let m = slice(&r1, 0, j);
    proof {
        assert(y@ =~= s@.take(i as int));
        assert(m@ =~= r1@.take(j as int));
    }
    if y.len() != 4 || m.len() != 2 || r2.len() != 2 || !digits_in(&y, 0, 4) || !digits_in(&m, 0, 2)
        || !digits_in(&r2, 0, 2) {
        proof {
            assert(y@.subrange(0, y@.len() as int) =~= y@);
            assert(m@.subrange(0, m@.len() as int) =~= m@);
            assert(r2@.subrange(0, r2@.len() as int) =~= r2@);
        }
        return string_of(&s);
    }
    proof {
        assert(y@.subrange(0, 4) =~= y@);
        assert(m@.subrange(0, 2) =~= m@);
        assert(r2@.subrange(0, 2) =~= r2@);
    }
    let month = two_digits(&m);
    let day = two_digits(&r2);
    if month < 1 || month > 12 {
        return string_of(&s);
    }
    let mut r = String::new();
    push_str(&mut r, month_name_of(month));
    push_char(&mut r, ' ');
    push_decimal(&mut r, day);
    push_str(&mut r, ", ");
    push_chars(&mut r, &y);
    proof {
        assert(r@ =~= month_name(month as nat) + " "@ + decimal(day as nat) + ", "@ + y@) by {
            reveal_strlit(" ");
        }
    }
    r
}

/// The ImageObject JSON-LD for a son: the structured data search engines
/// read for image results. Every string goes through `json_escape`.
pub open spec fn spec_image_object_json_ld(s: Son) -> Seq<char> {
    "{\"@context\":\"https://schema.org\",\"@type\":\"ImageObject\",\"contentUrl\":\""@
        + spec_json_escape(s.orig_url@)
        + "\",\"thumbnailUrl\":\""@ + spec_json_escape(s.thumb_url@)
        + "\",\"name\":\""@ + spec_json_escape(s.title@)
        + "\",\"description\":\""@ + spec_json_escape(spec_describe(s))
        + "\",\"uploadDate\":\""@ + spec_json_escape(s.created_at@)
        + "\",\"width\":"@ + decimal(s.width as nat)
        + ",\"height\":"@ + decimal(s.height as nat)
        + match s.uploader {
            Some(u) => ",\"creator\":{\"@type\":\"Person\",\"name\":\""@ + spec_json_escape(u.display_name@) + "\"}"@,
            None => Seq::empty(),
        }
        + "}"@
}

pub fn image_object_json_ld(s: &Son) -> (r: String)
    ensures
        r@ == spec_image_object_json_ld(*s),
{
    let mut r = String::new();
    push_str(&mut r, "{\"@context\":\"https://schema.org\",\"@type\":\"ImageObject\",\"contentUrl\":\"");
    let e = json_escape(s.orig_url.as_str());
    push_str(&mut r, e.as_str());
    push_str(&mut r, "\",\"thumbnailUrl\":\"");
    let e = json_escape(s.thumb_url.as_str());
    push_str(&mut r, e.as_str());
    push_str(&mut r, "\",\"name\":\"");
    let e = json_escape(s.title.as_str());
    push_str(&mut r, e.as_str());
    push_str(&mut r, "\",\"description\":\"");
    let d = describe(s);
    let e = json_escape(d.as_str());
    push_str(&mut r, e.as_str());
    push_str(&mut r, "\",\"uploadDate\":\"");
    let e = json_escape(s.created_at.as_str());
    push_str(&mut r, e.as_str());
    push_str(&mut r, "\",\"width\":");
    push_decimal(&mut r, s.width as u64);
    push_str(&mut r, ",\"height\":");
    push_decimal(&mut r, s.height as u64);
    let ghost before = r@;
    match &s.uploader {
        Some(u) => {
            push_str(&mut r, ",\"creator\":{\"@type\":\"Person\",\"name\":\"");
            let e = json_escape(u.display_name.as_str());
            push_str(&mut r, e.as_str());
            push_str(&mut r, "\"}");
            proof {
                assert(r@ =~= before + (",\"creator\":{\"@type\":\"Person\",\"name\":\""@
                    + spec_json_escape(u.display_name@) + "\"}"@));
            }
        }
        None => {
            proof { assert(r@ =~= before + Seq::<char>::empty()); }
        }
    }
    push_str(&mut r, "}");
    r
}

/// Everything a son's page says about it besides the picture.
#[derive(Debug)]
pub struct DetailMeta {
    /// The document title.
    pub title: String,
    pub description: String,
    /// The canonical URL, also `og:url`.
    pub page_url: String,
    pub og_image: String,
    /// The oEmbed discovery link.
    pub oembed_href: String,
    pub download_href: String,
    /// The date part of the upload time, for `<time datetime>`.
    pub iso_date: String,
    /// The same date as the byline shows it.
    pub date_text: String,
    pub uploader_name: String,
    pub json_ld: String,
}

pub open spec fn son_path(s: Son) -> Seq<char> {
    "/son/"@ + s.slug@
}

pub open spec fn opt_view(o: Option<&str>) -> Option<Seq<char>> {
    match o {
        Some(v) => Some(v@),
        None => None,
    }
}

/// The page's text, under the site origin if one is configured.
pub fn detail_meta(s: &Son, origin: Option<&str>) -> (r: DetailMeta)
    ensures
        r.title@ == s.title@ + " \u{2014} son collection"@,
        r.description@ == spec_describe(*s),
        r.page_url@ == spec_absolute(son_path(*s), opt_view(origin)),
        r.og_image@ == spec_absolute(s.orig_url@, opt_view(origin)),
        r.oembed_href@ == spec_absolute("/oembed"@, opt_view(origin)) + "?url="@
            + spec_absolute(son_path(*s), opt_view(origin)),
        r.download_href@ == son_path(*s) + "/download"@,
        r.iso_date@ == (if s.created_at@.len() > 10 { s.created_at@.take(10) } else { s.created_at@ }),
        r.date_text@ == spec_pretty_date(r.iso_date@),
        r.uploader_name@ == (match s.uploader {
            Some(u) => u.display_name@,
            None => "anonymous"@,
        }),
        r.json_ld@ == spec_image_object_json_ld(*s),
{
    let mut title = s.title.clone();
    push_str(&mut title, " \u{2014} son collection");
    let mut path = String::new();
    push_str(&mut path, "/son/");
    push_str(&mut path, s.slug.as_str());
    let page_url = absolute(path.as_str(), origin);
    let og_image = absolute(s.orig_url.as_str(), origin);
    let mut oembed_href = absolute("/oembed", origin);
    push_str(&mut oembed_href, "?url=");
    push_str(&mut oembed_href, page_url.as_str());
    let mut download_href = path.clone();
    push_str(&mut download_href, "/download");
    let c = chars_of(s.created_at.as_str());
    let n = if c.len() > 10 { 10 } else { c.len() };
    let iso = slice(&c, 0, n);
    proof {
        if c@.len() > 10 {
            assert(iso@ =~= c@.take(10));
        } else {
            assert(iso@ =~= c@);
        }
    }
    let iso_date = string_of(&iso);
    let date_text = pretty_date(iso_date.as_str());
    let uploader_name = match &s.uploader {
        Some(u) => u.display_name.clone(),
        None => {
            let mut a = String::new();
            push_str(&mut a, "anonymous");
            a
        }
    };
    DetailMeta {
        title,
        description: describe(s),
        page_url,
        og_image,
        oembed_href,
        download_href,
        iso_date,
        date_text,
        uploader_name,
        json_ld: image_object_json_ld(s),
    }
}

// ---------------------------------------------------------------------------
// Swiping between sons

/// Sideways travel, in pixels, past which letting go moves to the
/// neighbouring son.
pub const SWIPE_COMMIT_PX: i64 = 64;

/// Vertical travel, in pixels, past which the gesture is a scroll.
pub const SWIPE_ABANDON_Y: i64 = 24;

/// How far, in pixels, the son may be dragged when there is no son that way.
pub const SWIPE_RUBBER_PX: i64 = 28;

/// A touch gesture on the picture: where the finger went down, how far the
/// picture is dragged (in tenths of a pixel), and whether it is easing back.
#[derive(Clone, Copy, Debug)]
pub struct Swipe {
    pub grab: Option<(i32, i32)>,
    pub drag_tenths: i64,
    pub settling: bool,
}

/// Which neighbour a swipe goes to.
#[derive(Clone, Copy, Debug, PartialEq, Eq, Structural)]
pub enum Side {
    /// The newer son, reached by dragging right.
    Newer,
    /// The older son, reached by dragging left.
    Older,
}

impl Swipe {
    pub fn idle() -> (r: Swipe)
        ensures
            r == (Swipe { grab: None, drag_tenths: 0, settling: false }),
    {
        Swipe { grab: None, drag_tenths: 0, settling: false }
    }
}

/// A finger goes down; other pointers are ignored.
pub fn swipe_down(s: Swipe, touch: bool, x: i32, y: i32) -> (r: Swipe)
    ensures
        r == (if touch { Swipe { grab: Some((x, y)), settling: false, ..s } } else { s }),
{
    if touch {
        Swipe { grab: Some((x, y)), drag_tenths: s.drag_tenths, settling: false }
    } else {
        s
    }
}

pub open spec fn abs(v: int) -> int {
    if v < 0 { -v } else { v }
}

/// The drag shown for a sideways travel of `dx` pixels: the full travel
/// toward a son that exists, and a damped 0.4 of it, held within the rubber
/// limit, toward one that does not.
pub open spec fn spec_drag(dx: int, has_target: bool) -> int {
    if has_target {
        10 * dx
    } else if 4 * dx > 10 * SWIPE_RUBBER_PX {
        10 * SWIPE_RUBBER_PX
    } else if 4 * dx < -10 * SWIPE_RUBBER_PX {
        -10 * SWIPE_RUBBER_PX
    } else {
        4 * dx
    }
}

/// The finger moves: a mostly vertical travel past the abandon distance
/// hands the gesture back to scrolling; otherwise the picture follows.
pub open spec fn spec_move(s: Swipe, x: i32, y: i32, has_newer: bool, has_older: bool) -> Swipe {
    match s.grab {
        None => s,
        Some((x0, y0)) => {
            let dx = x - x0;
            let dy = y - y0;
            if abs(dy) > SWIPE_ABANDON_Y && abs(dy) > abs(dx) {
                Swipe { grab: None, drag_tenths: 0, settling: true }
            } else {
                let has_target = if dx < 0 { has_older } else { has_newer };
                Swipe { drag_tenths: spec_drag(dx, has_target) as i64, ..s }
            }
        }
    }
}

pub fn swipe_move(s: Swipe, x: i32, y: i32, has_newer: bool, has_older: bool) -> (r: Swipe)
    ensures
        r == spec_move(s, x, y, has_newer, has_older),
{
    match s.grab {
        None => s,
        Some((x0, y0)) => {
            let dx: i64 = x as i64 - x0 as i64;
            let dy: i64 = y as i64 - y0 as i64;
            let ady = if dy < 0 { -dy } else { dy };
            let adx = if dx < 0 { -dx } else { dx };
            if ady > SWIPE_ABANDON_Y && ady > adx {
                Swipe { grab: None, drag_tenths: 0, settling: true }
            } else {
                let has_target = if dx < 0 { has_older } else { has_newer };
                let drag = if has_target {
                    10 * dx
                } else if 4 * dx > 10 * SWIPE_RUBBER_PX {
                    10 * SWIPE_RUBBER_PX
                } else if 4 * dx < -10 * SWIPE_RUBBER_PX {
                    -10 * SWIPE_RUBBER_PX
                } else {
                    4 * dx
                };
                Swipe { grab: s.grab, drag_tenths: drag, settling: s.settling }
            }
        }
    }
}

/// Letting go: the picture eases back, and a drag of at least the commit
/// distance goes to the son on that side, if there is one.
pub open spec fn spec_up(s: Swipe, has_newer: bool, has_older: bool) -> (Swipe, Option<Side>) {
    match s.grab {
        None => (s, None),
        Some(_) => {
            let settled = Swipe { grab: None, drag_tenths: 0, settling: true };
            if abs(s.drag_tenths as int) < 10 * SWIPE_COMMIT_PX {
                (settled, None)
            } else if s.drag_tenths < 0 {
                (settled, if has_older { Some(Side::Older) } else { None })
            } else {
                (settled, if has_newer { Some(Side::Newer) } else { None })
            }
        }
    }
}

pub fn swipe_up(s: Swipe, has_newer: bool, has_older: bool) -> (r: (Swipe, Option<Side>))
    requires
        s.drag_tenths > i64::MIN,
    ensures
        r == spec_up(s, has_newer, has_older),
{
    match s.grab {
        None => (s, None),
        Some(_) => {
            let settled = Swipe { grab: None, drag_tenths: 0, settling: true };
            let d = s.drag_tenths;
            let ad = if d < 0 { -d } else { d };
            if ad < 10 * SWIPE_COMMIT_PX {
                (settled, None)
            } else if d < 0 {
                (settled, if has_older { Some(Side::Older) } else { None })
            } else {
                (settled, if has_newer { Some(Side::Newer) } else { None })
            }
        }
    }
}

/// The pointer was cancelled: ease back.
pub fn swipe_cancel(s: Swipe) -> (r: Swipe)
    ensures
        r == (Swipe { grab: None, drag_tenths: 0, settling: true }),
{
    Swipe { grab: None, drag_tenths: 0, settling: true }
}

/// A drag toward a side with no son stays within the rubber limit, so
/// letting go right after it never navigates; and a swipe only ever goes to
/// a side that has a son.
pub proof fn lemma_no_son_no_swipe(s: Swipe, x: i32, y: i32, has_newer: bool, has_older: bool)
    requires
        s.grab is Some,
    ensures
        ({
            let m = spec_move(s, x, y, has_newer, has_older);
            let dx = x - s.grab.unwrap().0;
            ((dx < 0 && !has_older) || (dx >= 0 && !has_newer)) ==> spec_up(m, has_newer, has_older).1 is None
        }),
        spec_up(s, has_newer, has_older).1 matches Some(side) ==>
            (side == Side::Older && has_older) || (side == Side::Newer && has_newer),
{
}

/// The drag as a CSS length, one decimal place, as `format!("{:.1}px")`
/// writes it.
pub fn translate_x(drag_tenths: i64) -> (r: String)
    requires
        drag_tenths > i64::MIN,
    ensures
        r@ == (if drag_tenths < 0 { "translateX(-"@ } else { "translateX("@ })
            + decimal((abs(drag_tenths as int) / 10) as nat) + "."@
            + decimal((abs(drag_tenths as int) % 10) as nat) + "px)"@,
{
    let mut r = String::new();
    let a: u64 = if drag_tenths < 0 { (-drag_tenths) as u64 } else { drag_tenths as u64 };
    if drag_tenths < 0 {
        push_str(&mut r, "translateX(-");
    } else {
        push_str(&mut r, "translateX(");
    }
    push_decimal(&mut r, a / 10);
    push_str(&mut r, ".");
    push_decimal(&mut r, a % 10);
    push_str(&mut r, "px)");
    r
}

} // verus!
