//! The gallery's query logic, around the SQL: the cursors that keyset
//! pagination resumes from, cutting a fetched page, marking what the visitor
//! liked, grouping reports for the admin queue, tag slugs, full-text search
//! terms, and the report count at which a son hides itself.
use vstd::prelude::*;
use crate::models::{Son, SonPage, Sort, ReportDetail, FlaggedSon, Uploader, PAGE_SIZE};
use crate::number::{signed_decimal, push_signed_decimal, parse_i64, spec_parse_i64, lemma_parse_signed_decimal};
use crate::text::{push_char, push_str, chars_of, string_of, slice, find_char, first_index, lemma_first_index,
    lemma_first_index_is, is_ascii_alnum, char_is_ascii_alnum, trim_end, trim_end_char, is_white, char_is_white,
    flat_map, lemma_flat_map_step, owned};
use crate::unicode::{to_lowercase, unicode_lowercase, is_ascii, is_ascii_upper, ascii_lower};

verus! {

/// A sitemap row: only what the sitemap's image extension needs.
#[derive(Debug)]
pub struct SitemapSon {
    pub id: String,
    pub title: String,
    pub orig_url: String,
    pub created_at: String,
}

/// The cursor for resuming after `s` in the given order. It carries the
/// whole sort key, with a tie-breaker where the key alone is not unique.
pub open spec fn spec_encode_cursor(s: Son, sort: Sort) -> Seq<char> {
    match sort {
        Sort::Newest => s.created_at@,
        Sort::MostLiked => signed_decimal(s.likes as int) + seq!['|'] + s.created_at@,
        Sort::Az => s.title@ + seq!['\u{0}'] + s.id@,
    }
}

pub fn encode_cursor(s: &Son, sort: Sort) -> (r: String)
    ensures
        r@ == spec_encode_cursor(*s, sort),
{
    match sort {
        Sort::Newest => s.created_at.clone(),
        Sort::MostLiked => {
            let mut r = String::new();
            push_signed_decimal(&mut r, s.likes);
            push_char(&mut r, '|');
            push_str(&mut r, s.created_at.as_str());
            r
        }
        Sort::Az => {
            let mut r = s.title.clone();
            push_char(&mut r, '\u{0}');
            push_str(&mut r, s.id.as_str());
            r
        }
    }
}

/// `(likes, created_at)` from a most-liked cursor. A malformed one starts
/// from the top: the count falls back to `i64::MAX`.
pub open spec fn spec_decode_liked(c: Seq<char>) -> (i64, Seq<char>) {
    match first_index(c, '|') {
        Some(k) => (
            match spec_parse_i64(c.take(k)) {
                Some(v) => v,
                None => i64::MAX,
            },
            c.skip(k + 1),
        ),
        None => (i64::MAX, Seq::empty()),
    }
}

pub fn decode_liked_cursor(cursor: &str) -> (r: (i64, String))
    ensures
        r.0 == spec_decode_liked(cursor@).0,
        r.1@ == spec_decode_liked(cursor@).1,
{
    let c = chars_of(cursor);
    match find_char(&c, '|') {
        Some(k) => {
            let head = slice(&c, 0, k);
            let tail = slice(&c, k + 1, c.len());
            proof {
                assert(head@ =~= c@.take(k as int));
                assert(tail@ =~= c@.skip(k as int + 1));
            }
            let likes = match parse_i64(&head) {
                Some(v) => v,
                None => i64::MAX,
            };
            (likes, string_of(&tail))
        }
        None => (i64::MAX, String::new()),
    }
}

/// `(title, id)` from an A-Z cursor; both empty when malformed.
pub open spec fn spec_decode_az(c: Seq<char>) -> (Seq<char>, Seq<char>) {
    match first_index(c, '\u{0}') {
        Some(k) => (c.take(k), c.skip(k + 1)),
        None => (Seq::empty(), Seq::empty()),
    }
}

pub fn decode_az_cursor(cursor: &str) -> (r: (String, String))
    ensures
        r.0@ == spec_decode_az(cursor@).0,
        r.1@ == spec_decode_az(cursor@).1,
{
    let c = chars_of(cursor);
    match find_char(&c, '\u{0}') {
        Some(k) => {
            let head = slice(&c, 0, k);
            let tail = slice(&c, k + 1, c.len());
            proof {
                assert(head@ =~= c@.take(k as int));
                assert(tail@ =~= c@.skip(k as int + 1));
            }
            (string_of(&head), string_of(&tail))
        }
        None => (String::new(), String::new()),
    }
}

/// A most-liked cursor reads back as the son's own like count and date.
pub proof fn lemma_liked_cursor_round_trip(s: Son)
    ensures
        spec_decode_liked(spec_encode_cursor(s, Sort::MostLiked)) == (s.likes, s.created_at@),
{
    let d = signed_decimal(s.likes as int);
    let c = spec_encode_cursor(s, Sort::MostLiked);
    lemma_parse_signed_decimal(s.likes);
    lemma_decimal_has_no_bar(s.likes as int);
    assert(c[d.len() as int] == '|');
    assert forall|j: int| 0 <= j < d.len() implies c[j] != '|' by {
        assert(c[j] == d[j]);
    }
    lemma_first_index_is(c, '|', d.len() as int);
    assert(c.take(d.len() as int) =~= d);
    assert(c.skip(d.len() as int + 1) =~= s.created_at@);
}

proof fn lemma_decimal_has_no_bar(n: int)
    ensures
        forall|j: int| 0 <= j < signed_decimal(n).len() ==> signed_decimal(n)[j] != '|',
{
    let d = signed_decimal(n);
    let m: nat = if n < 0 { (-n) as nat } else { n as nat };
    crate::number::lemma_decimal_value(m);
    assert forall|j: int| 0 <= j < d.len() implies d[j] != '|' by {
        if n < 0 {
            if j > 0 {
                assert(d[j] == crate::text::decimal(m)[j - 1]);
            }
        }
    }
}

/// An A-Z cursor reads back as the son's title and id, for any title without
/// a NUL, which `clean_title` guarantees.
pub proof fn lemma_az_cursor_round_trip(s: Son)
    requires
        forall|j: int| 0 <= j < s.title@.len() ==> s.title@[j] != '\u{0}',
    ensures
        spec_decode_az(spec_encode_cursor(s, Sort::Az)) == (s.title@, s.id@),
{
    let c = spec_encode_cursor(s, Sort::Az);
    let t = s.title@;
    assert(c[t.len() as int] == '\u{0}');
    assert forall|j: int| 0 <= j < t.len() implies c[j] != '\u{0}' by {
        assert(c[j] == t[j]);
    }
    lemma_first_index_is(c, '\u{0}', t.len() as int);
    assert(c.take(t.len() as int) =~= t);
    assert(c.skip(t.len() as int + 1) =~= s.id@);
}

/// The page shown from rows fetched with one more than a page's worth: the
/// extra row only says whether there is more, and the cursor resumes after
/// the last son shown.
pub open spec fn spec_page_sons(rows: Seq<Son>) -> Seq<Son> {
    if rows.len() > PAGE_SIZE {
        rows.take(PAGE_SIZE as int)
    } else {
        rows
    }
}

pub fn paginate(rows: Vec<Son>, sort: Sort) -> (r: SonPage)
    ensures
        r.sons@ == spec_page_sons(rows@),
        rows@.len() > PAGE_SIZE ==> (r.next_cursor matches Some(c)
            && c@ == spec_encode_cursor(rows@[PAGE_SIZE - 1], sort)),
        rows@.len() <= PAGE_SIZE ==> r.next_cursor is None,
{
    let has_more = rows.len() > 24;
    let mut sons = rows;
    if has_more {
        sons.truncate(24);
        let c = encode_cursor(&sons[23], sort);
        proof { assert(sons@ =~= rows@.take(24)); }
        SonPage { sons, next_cursor: Some(c) }
    } else {
        SonPage { sons, next_cursor: None }
    }
}

/// Where keyset pagination resumes, for each ordering: the cursor decoded
/// into the sort key it carries, with `active` false on the first page.
#[derive(Debug)]
pub enum Bounds {
    /// Newest first: sons created before this, if a cursor was given.
    Newest { before: Option<String> },
    /// Most liked first, then newest.
    MostLiked { active: bool, likes: i64, created: String },
    /// Title A-Z, then id.
    Az { active: bool, title: String, id: String },
}

/// The bounds for the next page of an ordering. A first page of most-liked
/// starts from the top (`i64::MAX`, empty date), and of A-Z from empty
/// strings.
pub fn bounds(cursor: Option<&str>, sort: Sort) -> (r: Bounds)
    ensures
        match sort {
            Sort::Newest => r matches Bounds::Newest { before } && match cursor {
                Some(c) => before matches Some(b) && b@ == c@,
                None => before is None,
            },
            Sort::MostLiked => r matches Bounds::MostLiked { active, likes, created } && active == (cursor is Some)
                && match cursor {
                    Some(c) => likes == spec_decode_liked(c@).0 && created@ == spec_decode_liked(c@).1,
                    None => likes == i64::MAX && created@.len() == 0,
                },
            Sort::Az => r matches Bounds::Az { active, title, id } && active == (cursor is Some)
                && match cursor {
                    Some(c) => title@ == spec_decode_az(c@).0 && id@ == spec_decode_az(c@).1,
                    None => title@.len() == 0 && id@.len() == 0,
                },
        },
{
    match sort {
        Sort::Newest => Bounds::Newest {
            before: match cursor {
                Some(c) => Some(string_of(&chars_of(c))),
                None => None,
            },
        },
        Sort::MostLiked => match cursor {
            Some(c) => {
                let (likes, created) = decode_liked_cursor(c);
                Bounds::MostLiked { active: true, likes, created }
            }
            None => Bounds::MostLiked { active: false, likes: i64::MAX, created: String::new() },
        },
        Sort::Az => match cursor {
            Some(c) => {
                let (title, id) = decode_az_cursor(c);
                Bounds::Az { active: true, title, id }
            }
            None => Bounds::Az { active: false, title: String::new(), id: String::new() },
        },
    }
}

/// A like toggle's answer: liked now exactly when the insert took (a
/// conflict means it was already liked, and the row is deleted instead),
/// with the recounted total, or 0 when the son is gone.
pub fn toggle_outcome(inserted: bool, recounted: Option<i64>) -> (r: (i64, bool))
    ensures
        r.1 == inserted,
        r.0 == (match recounted { Some(n) => n, None => 0 }),
{
    let count = match recounted {
        Some(n) => n,
        None => 0,
    };
    (count, inserted)
}

/// A son about to be recorded.
#[derive(Debug)]
pub struct NewSon {
    pub id: String,
    pub slug: String,
    /// False for an upload held for review.
    pub is_public: bool,
    pub title: String,
    pub orig_url: String,
    pub thumb_url: String,
    pub width: u32,
    pub height: u32,
    /// SHA-256 of the decoded pixels, for exact-duplicate detection.
    pub content_hash: String,
    /// Who uploaded it, if signed in.
    pub uploader_id: Option<String>,
    pub uploader: Option<Uploader>,
}

impl NewSon {
    /// The son as it reads straight after recording at `created_at`: no
    /// likes, no reports, not liked by anyone yet.
    pub fn recorded(self, created_at: String) -> (r: Son)
        ensures
            r == (Son {
                id: self.id,
                slug: self.slug,
                title: self.title,
                orig_url: self.orig_url,
                thumb_url: self.thumb_url,
                width: self.width,
                height: self.height,
                created_at,
                is_public: self.is_public,
                reports: 0,
                likes: 0,
                liked_by_me: false,
                uploader: self.uploader,
            }),
    {
        Son {
            id: self.id,
            slug: self.slug,
            title: self.title,
            orig_url: self.orig_url,
            thumb_url: self.thumb_url,
            width: self.width,
            height: self.height,
            created_at,
            is_public: self.is_public,
            reports: 0,
            likes: 0,
            liked_by_me: false,
            uploader: self.uploader,
        }
    }
}

/// Whether `id` is among `ids`.
pub open spec fn listed(ids: Seq<String>, id: Seq<char>) -> bool {
    exists|k: int| 0 <= k < ids.len() && (#[trigger] ids[k])@ == id
}

fn is_listed(ids: &[String], id: &String) -> (b: bool)
    ensures
        b == listed(ids@, id@),
{
    let mut k: usize = 0;
    while k < ids.len()
        invariant
            k <= ids.len(),
            forall|j: int| 0 <= j < k ==> (#[trigger] ids@[j])@ != id@,
        decreases ids.len() - k,
    {
        if ids[k] == *id {
            return true;
        }
        k = k + 1;
    }
    false
}

/// `s` with `liked_by_me` set as given.
pub open spec fn with_liked(s: Son, liked: bool) -> Son {
    Son { liked_by_me: liked, ..s }
}

/// Fills in `liked_by_me` for a page from the ids the visitor has liked,
/// leaving everything else about each son as it was.
pub fn mark_liked(sons: &mut Vec<Son>, liked: &[String])
    ensures
        final(sons)@.len() == old(sons)@.len(),
        forall|i: int| 0 <= i < old(sons)@.len() ==>
            #[trigger] final(sons)@[i] == with_liked(old(sons)@[i], listed(liked@, old(sons)@[i].id@)),
{
    let ghost start = sons@;
    let mut i: usize = 0;
    while i < sons.len()
        invariant
            i <= sons.len(),
            sons@.len() == start.len(),
            forall|j: int| 0 <= j < i ==> #[trigger] sons@[j] == with_liked(start[j], listed(liked@, start[j].id@)),
            forall|j: int| i <= j < sons@.len() ==> #[trigger] sons@[j] == start[j],
        decreases sons.len() - i,
    {
        let mut s = sons[i].copy();
        s.liked_by_me = is_listed(liked, &s.id);
        sons.set(i, s);
        i = i + 1;
    }
}

/// One report row, as the report query returns it.
#[derive(Debug)]
pub struct ReportRow {
    pub son_id: String,
    pub reason: String,
    pub message: Option<String>,
    pub created_at: String,
}

pub open spec fn detail_of(r: ReportRow) -> ReportDetail {
    ReportDetail { reason: r.reason, message: r.message, created_at: r.created_at }
}

/// Every report against `id`, in row order.
pub open spec fn reports_for(rows: Seq<ReportRow>, id: Seq<char>) -> Seq<ReportDetail>
    decreases rows.len(),
{
    if rows.len() == 0 {
        Seq::empty()
    } else if rows.last().son_id@ == id {
        reports_for(rows.drop_last(), id).push(detail_of(rows.last()))
    } else {
        reports_for(rows.drop_last(), id)
    }
}

/// Whether an earlier son in the list has the same id: its reports have
/// already been handed out.
pub open spec fn seen_before(sons: Seq<Son>, i: int) -> bool {
    exists|j: int| 0 <= j < i && (#[trigger] sons[j]).id@ == sons[i].id@
}

fn copy_row_detail(r: &ReportRow) -> (d: ReportDetail)
    ensures
        d == detail_of(*r),
{
    ReportDetail {
        reason: r.reason.clone(),
        message: crate::models::copy_opt_string(&r.message),
        created_at: r.created_at.clone(),
    }
}

fn collect_reports(rows: &[ReportRow], id: &String) -> (r: Vec<ReportDetail>)
    ensures
        r@ == reports_for(rows@, id@),
{
    let mut out: Vec<ReportDetail> = Vec::new();
    let mut k: usize = 0;
    proof { assert(rows@.take(0) =~= Seq::<ReportRow>::empty()); }
    while k < rows.len()
        invariant
            k <= rows.len(),
            out@ == reports_for(rows@.take(k as int), id@),
        decreases rows.len() - k,
    {
        proof {
            assert(rows@.take(k as int + 1).drop_last() =~= rows@.take(k as int));
            assert(rows@.take(k as int + 1).last() == rows@[k as int]);
        }
        if rows[k].son_id == *id {
            out.push(copy_row_detail(&rows[k]));
        }
        k = k + 1;
    }
    proof { assert(rows@.take(rows@.len() as int) =~= rows@); }
    out
}

fn seen_earlier(sons: &Vec<Son>, i: usize) -> (b: bool)
    requires
        i < sons.len(),
    ensures
        b == seen_before(sons@, i as int),
{
    let mut j: usize = 0;
    while j < i
        invariant
            j <= i < sons.len(),
            forall|k: int| 0 <= k < j ==> (#[trigger] sons@[k]).id@ != sons@[i as int].id@,
        decreases i - j,
    {
        if sons[j].id == sons[i].id {
            return true;
        }
        j = j + 1;
    }
    false
}

/// Each son with every report against it, newest report first as the rows
/// come. A son id that repeats gets its reports once, at its first place.
pub fn group_reports(sons: Vec<Son>, rows: &[ReportRow]) -> (r: Vec<FlaggedSon>)
    ensures
        r@.len() == sons@.len(),
        forall|i: int| 0 <= i < sons@.len() ==> (#[trigger] r@[i]).son == sons@[i]
            && r@[i].reports@ == (if seen_before(sons@, i) { Seq::empty() } else { reports_for(rows@, sons@[i].id@) }),
{
    let mut out: Vec<FlaggedSon> = Vec::new();
    let mut i: usize = 0;
    while i < sons.len()
        invariant
            i <= sons.len(),
            out@.len() == i,
            forall|k: int| 0 <= k < i ==> (#[trigger] out@[k]).son == sons@[k]
                && out@[k].reports@ == (if seen_before(sons@, k) { Seq::empty() } else { reports_for(rows@, sons@[k].id@) }),
        decreases sons.len() - i,
    {
        let reports = if seen_earlier(&sons, i) { Vec::new() } else { collect_reports(rows, &sons[i].id) };
        out.push(FlaggedSon { son: sons[i].copy(), reports });
        i = i + 1;
    }
    out
}

/// At this many distinct reports a son takes itself out of the gallery.
pub const AUTO_HIDE_REPORTS: i64 = 3;

/// Whether a son stays public once it has `reports` reports.
pub fn public_after_reports(reports: i64, is_public: bool) -> (r: bool)
    ensures
        r == (is_public && reports < AUTO_HIDE_REPORTS),
{
    if reports >= AUTO_HIDE_REPORTS { false } else { is_public }
}

/// The slug text for lowercased characters `s`: ASCII letters and digits
/// kept, every other run of characters one `-`, and none at the start (which
/// `after_dash` says).
pub open spec fn slug_from(s: Seq<char>, after_dash: bool) -> Seq<char>
    decreases s.len(),
{
    if s.len() == 0 {
        Seq::empty()
    } else if is_ascii_alnum(s[0]) {
        seq![s[0]] + slug_from(s.drop_first(), false)
    } else if !after_dash {
        seq!['-'] + slug_from(s.drop_first(), true)
    } else {
        slug_from(s.drop_first(), true)
    }
}

/// The URL slug of a tag name; `tag` when nothing of it survives.
pub open spec fn spec_slugify(name: Seq<char>) -> Seq<char> {
    let t = trim_end(slug_from(unicode_lowercase(name), true), '-');
    if t.len() == 0 { seq!['t', 'a', 'g'] } else { t }
}

/// The slug text of a name before any fallback: lowercased, runs of
/// anything but ASCII letters and digits made one `-`, no `-` at either end.
pub open spec fn spec_slug_text(name: Seq<char>) -> Seq<char> {
    trim_end(slug_from(unicode_lowercase(name), true), '-')
}

fn slug_text(name: &str) -> (r: Vec<char>)
    ensures
        r@ == spec_slug_text(name@),
        forall|j: int| 0 <= j < unicode_lowercase(name@).len() ==> !is_ascii_upper(#[trigger] unicode_lowercase(name@)[j]),
        (forall|j: int| 0 <= j < name@.len() ==> is_ascii(#[trigger] name@[j]))
            ==> unicode_lowercase(name@) == name@.map_values(|c: char| ascii_lower(c)),
{
    let lower = to_lowercase(name);
    let c = chars_of(lower.as_str());
    let mut slug: Vec<char> = Vec::new();
    let mut last_was_dash = true;
    let mut i: usize = 0;
    proof { assert(c@.skip(0) =~= c@); }
    while i < c.len()
        invariant
            i <= c.len(),
            slug@ + slug_from(c@.skip(i as int), last_was_dash) == slug_from(c@, true),
        decreases c.len() - i,
    {
        let ch = c[i];
        proof { assert(c@.skip(i as int).drop_first() =~= c@.skip(i as int + 1)); }
        let ghost before = slug@;
        if char_is_ascii_alnum(ch) {
            slug.push(ch);
            last_was_dash = false;
            proof { assert(before.push(ch) + slug_from(c@.skip(i as int + 1), false)
                =~= before + (seq![ch] + slug_from(c@.skip(i as int + 1), false))); }
        } else if !last_was_dash {
            slug.push('-');
            last_was_dash = true;
            proof { assert(before.push('-') + slug_from(c@.skip(i as int + 1), true)
                =~= before + (seq!['-'] + slug_from(c@.skip(i as int + 1), true))); }
        }
        i = i + 1;
    }
    proof { assert(slug@ + Seq::<char>::empty() =~= slug@); }
    trim_end_char(&slug, '-')
}

/// A slug: not empty, only `a` to `z`, `0` to `9` and `-`, with no `-` at
/// either end and never two in a row.
pub open spec fn is_slug(s: Seq<char>) -> bool {
    &&& s.len() > 0
    &&& forall|j: int| 0 <= j < s.len() ==> is_slug_char(#[trigger] s[j])
    &&& s[0] != '-'
    &&& s.last() != '-'
    &&& forall|j: int| 0 <= j < s.len() - 1 ==> !(#[trigger] s[j] == '-' && s[j + 1] == '-')
}

pub open spec fn is_slug_char(c: char) -> bool {
    ('a' <= c && c <= 'z') || ('0' <= c && c <= '9') || c == '-'
}

/// The URL slug of a tag name. The result is always a slug, and a name that
/// is already a slug is its own slug, so slugging twice changes nothing.
pub fn slugify(name: &str) -> (r: String)
    ensures
        r@ == spec_slugify(name@),
        is_slug(r@),
        is_slug(name@) ==> r@ == name@,
{
    let t = slug_text(name);
    proof {
        lemma_slugify_gives_a_slug(name@);
        if is_slug(name@) {
            lemma_slug_is_its_own_slug(name@);
        }
    }
    if t.len() == 0 {
        let mut r = String::new();
        push_str(&mut r, "tag");
        proof { reveal_strlit("tag"); assert(r@ =~= seq!['t', 'a', 'g']); }
        r
    } else {
        string_of(&t)
    }
}

/// A son's slug: the slug text of its title, or its id when the title has
/// nothing sluggable in it or another son already has that slug (`taken`).
pub fn son_slug(title: &str, id: &str, taken: bool) -> (r: String)
    ensures
        (taken || spec_slug_text(title@).len() == 0) ==> r@ == id@,
        !(taken || spec_slug_text(title@).len() == 0) ==> r@ == spec_slug_text(title@),
{
    let t = slug_text(title);
    if taken || t.len() == 0 {
        owned(id)
    } else {
        string_of(&t)
    }
}

proof fn lemma_slug_from_shape(s: Seq<char>, after_dash: bool)
    ensures
        forall|j: int| 0 <= j < slug_from(s, after_dash).len() ==>
            is_ascii_alnum(#[trigger] slug_from(s, after_dash)[j]) || slug_from(s, after_dash)[j] == '-',
        after_dash && slug_from(s, after_dash).len() > 0 ==> slug_from(s, after_dash)[0] != '-',
        forall|j: int| 0 <= j < slug_from(s, after_dash).len() - 1 ==>
            !(#[trigger] slug_from(s, after_dash)[j] == '-' && slug_from(s, after_dash)[j + 1] == '-'),
    decreases s.len(),
{
    if s.len() > 0 {
        let rest_dash = if is_ascii_alnum(s[0]) { false } else { true };
        lemma_slug_from_shape(s.drop_first(), rest_dash);
        let rest = slug_from(s.drop_first(), rest_dash);
        let out = slug_from(s, after_dash);
        if is_ascii_alnum(s[0]) || !after_dash {
            let head = if is_ascii_alnum(s[0]) { s[0] } else { '-' };
            assert(out == seq![head] + rest);
            assert forall|j: int| 0 <= j < out.len() implies is_ascii_alnum(#[trigger] out[j]) || out[j] == '-' by {
                if j > 0 { assert(out[j] == rest[j - 1]); }
            }
            assert forall|j: int| 0 <= j < out.len() - 1 implies !(#[trigger] out[j] == '-' && out[j + 1] == '-') by {
                assert(out[j + 1] == rest[j]);
                if j > 0 { assert(out[j] == rest[j - 1]); }
            }
        }
    }
}

proof fn lemma_trim_end_prefix(s: Seq<char>, c: char)
    ensures
        trim_end(s, c).len() <= s.len(),
        trim_end(s, c) =~= s.take(trim_end(s, c).len() as int),
        trim_end(s, c).len() > 0 ==> trim_end(s, c).last() != c,
    decreases s.len(),
{
    if s.len() > 0 && s.last() == c {
        lemma_trim_end_prefix(s.drop_last(), c);
        let t = trim_end(s.drop_last(), c);
        assert forall|j: int| 0 <= j < t.len() implies t[j] == s[j] by {
            assert(t[j] == s.drop_last().take(t.len() as int)[j]);
        }
    } else {
        assert(s.take(s.len() as int) =~= s);
    }
}

/// A slug is never empty, holds only ASCII letters, digits and `-`, and has
/// no `-` at either end or two in a row.
pub proof fn lemma_slug_shape(name: Seq<char>)
    ensures
        spec_slugify(name).len() > 0,
        forall|j: int| 0 <= j < spec_slugify(name).len() ==>
            is_ascii_alnum(#[trigger] spec_slugify(name)[j]) || spec_slugify(name)[j] == '-',
        spec_slugify(name)[0] != '-',
        spec_slugify(name).last() != '-',
        forall|j: int| 0 <= j < spec_slugify(name).len() - 1 ==>
            !(#[trigger] spec_slugify(name)[j] == '-' && spec_slugify(name)[j + 1] == '-'),
{
    let raw = slug_from(unicode_lowercase(name), true);
    lemma_slug_from_shape(unicode_lowercase(name), true);
    lemma_trim_end_prefix(raw, '-');
    let t = trim_end(raw, '-');
    if t.len() > 0 {
        assert forall|j: int| 0 <= j < t.len() implies t[j] == raw[j] by {
            assert(t[j] == raw.take(t.len() as int)[j]);
        }
        assert(t[0] == raw[0]);
        assert forall|j: int| 0 <= j < t.len() - 1 implies !(#[trigger] t[j] == '-' && t[j + 1] == '-') by {
            assert(t[j] == raw[j]);
            assert(t[j + 1] == raw[j + 1]);
        }
    } else {
        let g = seq!['t', 'a', 'g'];
        assert(spec_slugify(name) == g);
        assert(is_ascii_alnum(g[0]) && is_ascii_alnum(g[1]) && is_ascii_alnum(g[2]));
    }
}

proof fn lemma_slug_from_keeps(s: Seq<char>, after_dash: bool)
    requires
        forall|j: int| 0 <= j < s.len() ==> is_ascii_alnum(#[trigger] s[j]) || s[j] == '-',
        forall|j: int| 0 <= j < s.len() - 1 ==> !(#[trigger] s[j] == '-' && s[j + 1] == '-'),
        after_dash && s.len() > 0 ==> s[0] != '-',
    ensures
        slug_from(s, after_dash) == s,
    decreases s.len(),
{
    if s.len() > 0 {
        let rest = s.drop_first();
        assert forall|j: int| 0 <= j < rest.len() implies is_ascii_alnum(#[trigger] rest[j]) || rest[j] == '-' by {
            assert(rest[j] == s[j + 1]);
        }
        assert forall|j: int| 0 <= j < rest.len() - 1 implies !(#[trigger] rest[j] == '-' && rest[j + 1] == '-') by {
            assert(rest[j] == s[j + 1] && rest[j + 1] == s[j + 2]);
        }
        if is_ascii_alnum(s[0]) {
            lemma_slug_from_keeps(rest, false);
        } else {
            if rest.len() > 0 {
                assert(rest[0] == s[1]);
            }
            lemma_slug_from_keeps(rest, true);
        }
        assert(seq![s[0]] + rest =~= s);
    }
}

proof fn lemma_slug_from_no_upper(s: Seq<char>, after_dash: bool)
    requires
        forall|j: int| 0 <= j < s.len() ==> !is_ascii_upper(#[trigger] s[j]),
    ensures
        forall|j: int| 0 <= j < slug_from(s, after_dash).len() ==> !is_ascii_upper(#[trigger] slug_from(s, after_dash)[j]),
    decreases s.len(),
{
    if s.len() > 0 {
        let rest = s.drop_first();
        assert forall|j: int| 0 <= j < rest.len() implies !is_ascii_upper(#[trigger] rest[j]) by {
            assert(rest[j] == s[j + 1]);
        }
        let rest_dash = if is_ascii_alnum(s[0]) { false } else { true };
        lemma_slug_from_no_upper(rest, rest_dash);
        let out = slug_from(s, after_dash);
        let r = slug_from(rest, rest_dash);
        if is_ascii_alnum(s[0]) || !after_dash {
            let head = if is_ascii_alnum(s[0]) { s[0] } else { '-' };
            assert(out == seq![head] + r);
            assert forall|j: int| 0 <= j < out.len() implies !is_ascii_upper(#[trigger] out[j]) by {
                if j > 0 { assert(out[j] == r[j - 1]); }
            }
        }
    }
}

/// What `slugify` gives is always a slug.
proof fn lemma_slugify_gives_a_slug(name: Seq<char>)
    requires
        forall|j: int| 0 <= j < unicode_lowercase(name).len() ==> !is_ascii_upper(#[trigger] unicode_lowercase(name)[j]),
    ensures
        is_slug(spec_slugify(name)),
{
    let lower = unicode_lowercase(name);
    let raw = slug_from(lower, true);
    lemma_slug_shape(name);
    lemma_slug_from_no_upper(lower, true);
    lemma_trim_end_prefix(raw, '-');
    let t = trim_end(raw, '-');
    let r = spec_slugify(name);
    if t.len() > 0 {
        assert forall|j: int| 0 <= j < r.len() implies is_slug_char(#[trigger] r[j]) by {
            assert(r[j] == raw.take(t.len() as int)[j]);
            assert(is_ascii_alnum(r[j]) || r[j] == '-');
        }
    } else {
        assert forall|j: int| 0 <= j < r.len() implies is_slug_char(#[trigger] r[j]) by {
            assert(r == seq!['t', 'a', 'g']);
        }
    }
}

/// A name that is already a slug lowercases to itself, and the slugging
/// pass gives it back unchanged.
proof fn lemma_slug_is_its_own_slug(name: Seq<char>)
    requires
        is_slug(name),
        (forall|j: int| 0 <= j < name.len() ==> is_ascii(#[trigger] name[j]))
            ==> unicode_lowercase(name) == name.map_values(|c: char| ascii_lower(c)),
    ensures
        spec_slugify(name) == name,
{
    assert forall|j: int| 0 <= j < name.len() implies is_ascii(#[trigger] name[j]) by {
        assert(is_slug_char(name[j]));
    }
    assert(unicode_lowercase(name) =~= name) by {
        assert forall|j: int| 0 <= j < name.len() implies
            name.map_values(|c: char| ascii_lower(c))[j] == name[j] by {
            assert(is_slug_char(name[j]));
        }
    }
    assert forall|j: int| 0 <= j < name.len() implies is_ascii_alnum(#[trigger] name[j]) || name[j] == '-' by {
        assert(is_slug_char(name[j]));
    }
    lemma_slug_from_keeps(name, true);
    assert(trim_end(name, '-') == name);
}

/// The words of `s` as `str::split_whitespace` yields them: the maximal runs
/// of characters that are not white space, in order.
pub open spec fn words(s: Seq<char>) -> Seq<Seq<char>>
    decreases s.len(),
{
    if s.len() == 0 {
        Seq::empty()
    } else if is_white(s.last()) {
        words(s.drop_last())
    } else if s.len() >= 2 && !is_white(s[s.len() - 2]) && words(s.drop_last()).len() > 0 {
        let w = words(s.drop_last());
        w.update(w.len() - 1, w.last().push(s.last()))
    } else {
        words(s.drop_last()).push(seq![s.last()])
    }
}

/// A character of a search term, with `"` doubled as FTS5 string syntax
/// wants it.
pub open spec fn fts_char(c: char) -> Seq<char> {
    if c == '"' { seq!['"', '"'] } else { seq![c] }
}

/// A search term as one quoted FTS5 string.
pub open spec fn fts_term(w: Seq<char>) -> Seq<char> {
    seq!['"'] + flat_map(w, |c: char| fts_char(c)) + seq!['"']
}

/// Quoted terms, separated by single spaces.
pub open spec fn fts_join(ws: Seq<Seq<char>>) -> Seq<char>
    decreases ws.len(),
{
    if ws.len() == 0 {
        Seq::empty()
    } else if ws.len() == 1 {
        fts_term(ws[0])
    } else {
        fts_join(ws.drop_last()) + seq![' '] + fts_term(ws.last())
    }
}

/// The full-text query for free text typed in a search box: every word
/// quoted, so no character a visitor types is read as FTS5 syntax, and the
/// words joined as an implicit AND. Empty when the text has no words.
pub open spec fn spec_fts_query(q: Seq<char>) -> Seq<char> {
    fts_join(words(q))
}

fn split_words(c: &Vec<char>) -> (r: Vec<Vec<char>>)
    ensures
        r@.len() == words(c@).len(),
        forall|k: int| 0 <= k < r@.len() ==> (#[trigger] r@[k])@ == words(c@)[k],
{
    let mut out: Vec<Vec<char>> = Vec::new();
    let mut i: usize = 0;
    proof { assert(c@.take(0) =~= Seq::<char>::empty()); }
    while i < c.len()
        invariant
            i <= c.len(),
            out@.len() == words(c@.take(i as int)).len(),
            forall|k: int| 0 <= k < out@.len() ==> (#[trigger] out@[k])@ == words(c@.take(i as int))[k],
        decreases c.len() - i,
    {
        let ch = c[i];
        let ghost t = c@.take(i as int + 1);
        proof {
            assert(t.drop_last() =~= c@.take(i as int));
            assert(t.last() == ch);
            if i >= 1 { assert(t[t.len() - 2] == c@[i - 1]); }
        }
        if char_is_white(ch) {
        } else if i >= 1 && !char_is_white(c[i - 1]) && out.len() > 0 {
            let mut last = out.pop().unwrap();
            last.push(ch);
            out.push(last);
            proof {
                let w = words(c@.take(i as int));
                assert(words(t) == w.update(w.len() - 1, w.last().push(ch)));
            }
        } else {
            let mut w: Vec<char> = Vec::new();
            w.push(ch);
            out.push(w);
            proof { assert(w@ =~= seq![ch]); }
        }
        i = i + 1;
    }
    proof { assert(c@.take(c@.len() as int) =~= c@); }
    out
}

fn push_fts_term(out: &mut String, w: &Vec<char>)
    ensures
        final(out)@ == old(out)@ + fts_term(w@),
{
    let ghost start = out@;
    push_char(out, '"');
    let mut k: usize = 0;
    proof { assert(w@.take(0) =~= Seq::<char>::empty()); }
    while k < w.len()
        invariant
            k <= w.len(),
            out@ == start.push('"') + flat_map(w@.take(k as int), |c: char| fts_char(c)),
        decreases w.len() - k,
    {
        proof { lemma_flat_map_step(w@, k as int, |c: char| fts_char(c)); }
        let ghost before = out@;
        if w[k] == '"' {
            push_char(out, '"');
            push_char(out, '"');
            proof { assert(before.push('"').push('"') =~= before + fts_char(w@[k as int])); }
        } else {
            push_char(out, w[k]);
            proof { assert(before.push(w@[k as int]) =~= before + fts_char(w@[k as int])); }
        }
        k = k + 1;
    }
    push_char(out, '"');
    proof {
        assert(w@.take(w@.len() as int) =~= w@);
        assert(start.push('"') + flat_map(w@, |c: char| fts_char(c)) + seq!['"']
            =~= start + fts_term(w@));
    }
}

/// The FTS5 query for what a visitor typed into search.
pub fn fts_query(query: &str) -> (r: String)
    ensures
        r@ == spec_fts_query(query@),
{
    let c = chars_of(query);
    let ws = split_words(&c);
    let mut out = String::new();
    let mut k: usize = 0;
    let ghost all = words(c@);
    proof { assert(all.take(0) =~= Seq::<Seq<char>>::empty()); }
    while k < ws.len()
        invariant
            k <= ws.len(),
            ws@.len() == all.len(),
            all == words(c@),
            forall|j: int| 0 <= j < ws@.len() ==> (#[trigger] ws@[j])@ == all[j],
            out@ == fts_join(all.take(k as int)),
        decreases ws.len() - k,
    {
        proof {
            assert(all.take(k as int + 1).drop_last() =~= all.take(k as int));
            assert(all.take(k as int + 1).last() == all[k as int]);
        }
        if k > 0 {
            push_char(&mut out, ' ');
        }
        push_fts_term(&mut out, &ws[k]);
        proof {
            if k == 0 {
                assert(Seq::<char>::empty() + fts_term(all[0]) =~= fts_term(all[0]));
            }
        }
        k = k + 1;
    }
    proof { assert(all.take(all.len() as int) =~= all); }
    out
}

} // verus!
