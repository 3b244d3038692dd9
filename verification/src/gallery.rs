//! The gallery's rules: which ordering is shown and how the sort menu moves
//! between them, the infinite feed's paging, grid density and the staggered
//! entrance of its tiles, what a card says, and the "more sons" strip.
use vstd::prelude::*;
use crate::models::{Son, SonPage, Sort};
use crate::text::{push_str, push_decimal, decimal, chars_of, equals};

verus! {

// ---------------------------------------------------------------------------
// What the gallery shows

/// What the gallery is showing: one of the orderings, or the featured son.
#[derive(Clone, Copy, Debug, PartialEq, Eq, Structural)]
pub enum GalleryView {
    Sort(Sort),
    SonOfDay,
}

impl GalleryView {
    /// The ordering to fetch; the featured view keeps the default one.
    pub fn sort(&self) -> (r: Sort)
        ensures
            r == (match *self {
                GalleryView::Sort(s) => s,
                GalleryView::SonOfDay => Sort::Newest,
            }),
    {
        match self {
            GalleryView::Sort(s) => *s,
            GalleryView::SonOfDay => Sort::Newest,
        }
    }
}

impl Default for GalleryView {
    fn default() -> (r: Self)
        ensures
            r == GalleryView::Sort(Sort::Newest),
    {
        GalleryView::Sort(Sort::Newest)
    }
}

/// Entries in the sort menu, in order.
pub const MENU_LEN: usize = 4;

/// The menu entry at position `i`.
pub open spec fn spec_option(i: int) -> GalleryView {
    if i == 0 {
        GalleryView::Sort(Sort::Newest)
    } else if i == 1 {
        GalleryView::Sort(Sort::MostLiked)
    } else if i == 2 {
        GalleryView::Sort(Sort::Az)
    } else {
        GalleryView::SonOfDay
    }
}

pub open spec fn spec_label(v: GalleryView) -> Seq<char> {
    match v {
        GalleryView::Sort(Sort::Newest) => "Newest"@,
        GalleryView::Sort(Sort::MostLiked) => "Most cried over"@,
        GalleryView::Sort(Sort::Az) => "A\u{2013}Z"@,
        GalleryView::SonOfDay => "Son of the day"@,
    }
}

/// The menu entry at position `i < 4`.
pub fn option_at(i: usize) -> (r: GalleryView)
    requires
        i < MENU_LEN,
    ensures
        r == spec_option(i as int),
{
    if i == 0 {
        GalleryView::Sort(Sort::Newest)
    } else if i == 1 {
        GalleryView::Sort(Sort::MostLiked)
    } else if i == 2 {
        GalleryView::Sort(Sort::Az)
    } else {
        GalleryView::SonOfDay
    }
}

/// The words the menu shows for a view.
pub fn label_for(v: GalleryView) -> (r: &'static str)
    ensures
        r@ == spec_label(v),
{
    match v {
        GalleryView::Sort(Sort::Newest) => "Newest",
        GalleryView::Sort(Sort::MostLiked) => "Most cried over",
        GalleryView::Sort(Sort::Az) => "A\u{2013}Z",
        GalleryView::SonOfDay => "Son of the day",
    }
}

/// Every view has exactly one place in the menu.
pub proof fn lemma_menu_lists_every_view(v: GalleryView)
    ensures
        exists|i: int| 0 <= i < MENU_LEN && spec_option(i) == v,
        forall|i: int, j: int| 0 <= i < MENU_LEN && 0 <= j < MENU_LEN && spec_option(i) == spec_option(j) ==> i == j,
{
    match v {
        GalleryView::Sort(Sort::Newest) => assert(spec_option(0) == v),
        GalleryView::Sort(Sort::MostLiked) => assert(spec_option(1) == v),
        GalleryView::Sort(Sort::Az) => assert(spec_option(2) == v),
        GalleryView::SonOfDay => assert(spec_option(3) == v),
    }
}

pub fn trigger_class(open: bool) -> (r: &'static str)
    ensures
        r@ == (if open {
            "inline-flex min-h-9 flex-none items-center gap-1.5 whitespace-nowrap rounded-full border border-accent-border bg-accent-soft px-3.5 text-[0.8125rem] font-semibold text-accent transition-colors"@
        } else {
            "inline-flex min-h-9 flex-none items-center gap-1.5 whitespace-nowrap rounded-full border border-line bg-transparent px-3.5 text-[0.8125rem] text-ink-2 transition-colors hover:border-line-strong hover:text-ink"@
        }),
{
    if open {
        "inline-flex min-h-9 flex-none items-center gap-1.5 whitespace-nowrap rounded-full border border-accent-border bg-accent-soft px-3.5 text-[0.8125rem] font-semibold text-accent transition-colors"
    } else {
        "inline-flex min-h-9 flex-none items-center gap-1.5 whitespace-nowrap rounded-full border border-line bg-transparent px-3.5 text-[0.8125rem] text-ink-2 transition-colors hover:border-line-strong hover:text-ink"
    }
}

pub fn item_class(selected: bool) -> (r: &'static str)
    ensures
        r@ == (if selected {
            "flex w-full items-center gap-2 whitespace-nowrap px-3 py-2 text-left text-[0.85rem] font-semibold text-accent transition-colors hover:bg-surface-hover"@
        } else {
            "flex w-full items-center gap-2 whitespace-nowrap px-3 py-2 text-left text-[0.85rem] text-ink-2 transition-colors hover:bg-surface-hover hover:text-ink"@
        }),
{
    if selected {
        "flex w-full items-center gap-2 whitespace-nowrap px-3 py-2 text-left text-[0.85rem] font-semibold text-accent transition-colors hover:bg-surface-hover"
    } else {
        "flex w-full items-center gap-2 whitespace-nowrap px-3 py-2 text-left text-[0.85rem] text-ink-2 transition-colors hover:bg-surface-hover hover:text-ink"
    }
}

pub fn chevron_class(open: bool) -> (r: &'static str)
    ensures
        r@ == (if open { "inline-flex rotate-180 transition-transform"@ } else { "inline-flex transition-transform"@ }),
{
    if open {
        "inline-flex rotate-180 transition-transform"
    } else {
        "inline-flex transition-transform"
    }
}

// ---------------------------------------------------------------------------
// The sort menu's keyboard

/// Whether the menu is open and which entry has focus.
#[derive(Clone, Copy, Debug, PartialEq, Eq, Structural)]
pub struct Menu {
    pub open: bool,
    pub focus: Option<usize>,
}

/// A key's effect on the menu: the new state, whether the browser's own
/// handling of the key is suppressed, and whether focus goes back to the
/// menu's button.
#[derive(Debug)]
pub struct KeyOutcome {
    pub menu: Menu,
    pub handled: bool,
    pub refocus_trigger: bool,
}

/// The entry below `cur`, wrapping to the top.
pub open spec fn below(cur: int) -> int {
    if cur == MENU_LEN - 1 { 0 } else { cur + 1 }
}

/// The entry above `cur`, wrapping to the bottom.
pub open spec fn above(cur: int) -> int {
    if cur == 0 { MENU_LEN - 1 } else { cur - 1 }
}

pub open spec fn spec_key(m: Menu, key: Seq<char>) -> (Menu, bool, bool) {
    let last: usize = 3;
    if key == "Escape"@ && m.open {
        (Menu { open: false, focus: None }, true, true)
    } else if key == "ArrowDown"@ || key == "ArrowUp"@ {
        let down = key == "ArrowDown"@;
        if m.open {
            let next: int = match m.focus {
                None => if down { 0 } else { 3 },
                Some(cur) => if down { below(cur as int) } else { above(cur as int) },
            };
            (Menu { open: true, focus: Some(next as usize) }, true, false)
        } else {
            (Menu { open: true, focus: Some(if down { 0 } else { last }) }, true, false)
        }
    } else if key == "Home"@ && m.open {
        (Menu { open: true, focus: Some(0) }, true, false)
    } else if key == "End"@ && m.open {
        (Menu { open: true, focus: Some(last) }, true, false)
    } else {
        (m, false, false)
    }
}

/// The menu's answer to a key: arrows move through the entries and wrap,
/// opening the menu if it is shut; Home and End jump; Escape closes it and
/// hands focus back to its button.
pub fn on_key(m: Menu, key: &str) -> (r: KeyOutcome)
    requires
        m.focus matches Some(i) ==> i < MENU_LEN,
    ensures
        (r.menu, r.handled, r.refocus_trigger) == spec_key(m, key@),
        r.menu.focus matches Some(i) ==> i < MENU_LEN,
{
    let last = MENU_LEN - 1;
    let k = chars_of(key);
    let down = equals(&k, "ArrowDown");
    let up = equals(&k, "ArrowUp");
    if equals(&k, "Escape") && m.open {
        KeyOutcome { menu: Menu { open: false, focus: None }, handled: true, refocus_trigger: true }
    } else if down || up {
        if m.open {
            let next = match m.focus {
                None => if down { 0 } else { last },
                Some(cur) => {
                    if down {
                        if cur == last { 0 } else { cur + 1 }
                    } else {
                        if cur == 0 { last } else { cur - 1 }
                    }
                }
            };
            KeyOutcome { menu: Menu { open: true, focus: Some(next) }, handled: true, refocus_trigger: false }
        } else {
            KeyOutcome { menu: Menu { open: true, focus: Some(if down { 0 } else { last }) }, handled: true, refocus_trigger: false }
        }
    } else if equals(&k, "Home") && m.open {
        KeyOutcome { menu: Menu { open: true, focus: Some(0) }, handled: true, refocus_trigger: false }
    } else if equals(&k, "End") && m.open {
        KeyOutcome { menu: Menu { open: true, focus: Some(last) }, handled: true, refocus_trigger: false }
    } else {
        KeyOutcome { menu: m, handled: false, refocus_trigger: false }
    }
}

/// In an open menu, a step down then a step up (or the reverse) comes back
/// to the same entry, wrapping included.
pub proof fn lemma_arrows_undo_each_other(i: usize)
    requires
        i < MENU_LEN,
    ensures
        above(below(i as int)) == i,
        below(above(i as int)) == i,
        0 <= below(i as int) < MENU_LEN,
        0 <= above(i as int) < MENU_LEN,
{
}

// ---------------------------------------------------------------------------
// The feed

/// An infinite feed past its first page: the sons loaded since, where to
/// resume, whether there is nothing more, and whether the first page was
/// empty.
#[derive(Debug)]
pub struct Feed {
    pub extra: Vec<Son>,
    pub cursor: Option<String>,
    pub exhausted: bool,
    pub is_empty: bool,
}

impl Feed {
    /// A feed before anything has loaded.
    pub fn new() -> (r: Feed)
        ensures
            r.extra@.len() == 0,
            r.cursor is None,
            !r.exhausted,
            !r.is_empty,
    {
        Feed { extra: Vec::new(), cursor: None, exhausted: false, is_empty: false }
    }

    /// The first page arrived. Its cursor is taken only by a feed that has
    /// not started paging yet.
    pub fn first_page(&mut self, page: &SonPage)
        ensures
            final(self).extra@ == old(self).extra@,
            final(self).is_empty == (page.sons@.len() == 0),
            (old(self).cursor is None && !old(self).exhausted) ==> match page.next_cursor {
                Some(c) => final(self).cursor == Some(c) && final(self).exhausted == old(self).exhausted,
                None => final(self).cursor == old(self).cursor && final(self).exhausted,
            },
            !(old(self).cursor is None && !old(self).exhausted) ==>
                final(self).cursor == old(self).cursor && final(self).exhausted == old(self).exhausted,
    {
        self.is_empty = page.sons.len() == 0;
        if self.cursor.is_none() && !self.exhausted {
            match &page.next_cursor {
                Some(c) => self.cursor = Some(c.clone()),
                None => self.exhausted = true,
            }
        }
    }

    /// A further page arrived: its sons go after the ones already shown, and
    /// the feed is exhausted exactly when the page has no cursor.
    pub fn more(&mut self, page: SonPage)
        ensures
            final(self).extra@ == old(self).extra@ + page.sons@,
            final(self).cursor == page.next_cursor,
            final(self).exhausted == (page.next_cursor is None),
            final(self).is_empty == old(self).is_empty,
    {
        let SonPage { sons, next_cursor } = page;
        let mut sons = sons;
        let ghost before = self.extra@;
        self.extra.append(&mut sons);
        self.exhausted = next_cursor.is_none();
        self.cursor = next_cursor;
    }

    /// A different ordering was picked: start over.
    pub fn reset(&mut self)
        ensures
            final(self).extra@.len() == 0,
            final(self).cursor is None,
            !final(self).exhausted,
            !final(self).is_empty,
    {
        self.extra = Vec::new();
        self.cursor = None;
        self.exhausted = false;
        self.is_empty = false;
    }

    /// Whether reaching the bottom should fetch another page: only with a
    /// cursor to resume from and no fetch already running.
    pub fn wants_more(&self, loading: bool) -> (r: bool)
        ensures
            r == (!loading && !self.exhausted && self.cursor is Some),
    {
        !loading && !self.exhausted && self.cursor.is_some()
    }
}

// ---------------------------------------------------------------------------
// Density and tiles

/// Tile density of the grid.
#[derive(Clone, Copy, Debug, PartialEq, Eq, Structural)]
pub enum Density {
    Compact,
    Cozy,
}

impl Default for Density {
    fn default() -> (r: Self)
        ensures
            r == Density::Cozy,
    {
        Density::Cozy
    }
}

impl Density {
    pub fn grid_class(&self) -> (r: &'static str)
        ensures
            r@ == (match *self {
                Density::Compact => "grid grid-cols-3 gap-2 sm:grid-cols-4 xl:grid-cols-5 min-[1900px]:grid-cols-8"@,
                Density::Cozy => "grid grid-cols-2 gap-3 sm:grid-cols-3 xl:grid-cols-4 min-[1600px]:grid-cols-5 min-[1900px]:grid-cols-6"@,
            }),
    {
        match self {
            Density::Compact => "grid grid-cols-3 gap-2 sm:grid-cols-4 xl:grid-cols-5 min-[1900px]:grid-cols-8",
            Density::Cozy => "grid grid-cols-2 gap-3 sm:grid-cols-3 xl:grid-cols-4 min-[1600px]:grid-cols-5 min-[1900px]:grid-cols-6",
        }
    }
}

pub fn seg_class(active: bool) -> (r: &'static str)
    ensures
        r@ == (if active {
            "inline-flex h-8 w-8 items-center justify-center rounded-full bg-surface-hover text-accent transition-colors"@
        } else {
            "inline-flex h-8 w-8 items-center justify-center rounded-full text-ink-3 transition-colors hover:text-ink"@
        }),
{
    if active {
        "inline-flex h-8 w-8 items-center justify-center rounded-full bg-surface-hover text-accent transition-colors"
    } else {
        "inline-flex h-8 w-8 items-center justify-center rounded-full text-ink-3 transition-colors hover:text-ink"
    }
}

/// Animation-delay steps for tiles entering in sequence.
pub const STAGGER_STEPS: usize = 8;

/// The delay class of the `k`th step: 40ms apart, from 0.
pub open spec fn stagger_class(k: nat) -> Seq<char> {
    "[animation-delay:"@ + decimal(40 * k) + "ms]"@
}

proof fn lemma_delay_digits()
    ensures
        decimal(0) =~= seq!['0'],
        decimal(40) =~= seq!['4', '0'],
        decimal(80) =~= seq!['8', '0'],
        decimal(120) =~= seq!['1', '2', '0'],
        decimal(160) =~= seq!['1', '6', '0'],
        decimal(200) =~= seq!['2', '0', '0'],
        decimal(240) =~= seq!['2', '4', '0'],
        decimal(280) =~= seq!['2', '8', '0'],
{
    assert(('0' as u32) == 48 && ('1' as u32) == 49 && ('2' as u32) == 50 && ('4' as u32) == 52);
    assert(('6' as u32) == 54 && ('8' as u32) == 56);
    assert(crate::text::digit_char(0) == '0');
    assert(crate::text::digit_char(1) == '1');
    assert(crate::text::digit_char(2) == '2');
    assert(crate::text::digit_char(4) == '4');
    assert(crate::text::digit_char(6) == '6');
    assert(crate::text::digit_char(8) == '8');
    assert(decimal(0) =~= seq!['0']);
    assert(decimal(1) =~= seq!['1']);
    assert(decimal(2) =~= seq!['2']);
    assert(decimal(4) =~= seq!['4']);
    assert(decimal(8) =~= seq!['8']);
    assert(decimal(12) =~= seq!['1', '2']);
    assert(decimal(16) =~= seq!['1', '6']);
    assert(decimal(20) =~= seq!['2', '0']);
    assert(decimal(24) =~= seq!['2', '4']);
    assert(decimal(28) =~= seq!['2', '8']);
    assert(decimal(40) =~= seq!['4', '0']);
    assert(decimal(80) =~= seq!['8', '0']);
    assert(decimal(120) =~= seq!['1', '2', '0']);
    assert(decimal(160) =~= seq!['1', '6', '0']);
    assert(decimal(200) =~= seq!['2', '0', '0']);
    assert(decimal(240) =~= seq!['2', '4', '0']);
    assert(decimal(280) =~= seq!['2', '8', '0']);
}

/// The entrance delay for tile `i`: one step per tile, and every tile past
/// the last step holds at the last step rather than wrapping round.
pub fn stagger(i: usize) -> (r: &'static str)
    ensures
        r@ == stagger_class(if i < STAGGER_STEPS { i as nat } else { (STAGGER_STEPS - 1) as nat }),
{
    let k = if i < STAGGER_STEPS { i } else { STAGGER_STEPS - 1 };
    proof {
        reveal_strlit("[animation-delay:");
        reveal_strlit("ms]");
        reveal_strlit("[animation-delay:0ms]");
        reveal_strlit("[animation-delay:40ms]");
        reveal_strlit("[animation-delay:80ms]");
        reveal_strlit("[animation-delay:120ms]");
        reveal_strlit("[animation-delay:160ms]");
        reveal_strlit("[animation-delay:200ms]");
        reveal_strlit("[animation-delay:240ms]");
        reveal_strlit("[animation-delay:280ms]");
        lemma_delay_digits();
    }
    let r = if k == 0 {
        "[animation-delay:0ms]"
    } else if k == 1 {
        "[animation-delay:40ms]"
    } else if k == 2 {
        "[animation-delay:80ms]"
    } else if k == 3 {
        "[animation-delay:120ms]"
    } else if k == 4 {
        "[animation-delay:160ms]"
    } else if k == 5 {
        "[animation-delay:200ms]"
    } else if k == 6 {
        "[animation-delay:240ms]"
    } else {
        "[animation-delay:280ms]"
    };
    proof {
        assert(r@ =~= stagger_class(k as nat));
    }
    r
}

/// Every step up to the clamp is a different delay.
pub proof fn lemma_stagger_steps_distinct(i: nat, j: nat)
    requires
        i < STAGGER_STEPS,
        j < STAGGER_STEPS,
        i != j,
    ensures
        stagger_class(i) != stagger_class(j),
{
    let p = "[animation-delay:"@;
    let q = "ms]"@;
    reveal_strlit("[animation-delay:");
    reveal_strlit("ms]");
    crate::number::lemma_decimal_value(40 * i);
    crate::number::lemma_decimal_value(40 * j);
    if stagger_class(i) == stagger_class(j) {
        let a = decimal(40 * i);
        let b = decimal(40 * j);
        assert((p + a + q).len() == (p + b + q).len());
        assert((p + a + q).subrange(p.len() as int, (p.len() + a.len()) as int) =~= a);
        assert((p + b + q).subrange(p.len() as int, (p.len() + b.len()) as int) =~= b);
        assert(a == b);
    }
}

/// Widths of the lines of a text placeholder, widest first.
pub fn line_width(i: usize) -> (r: &'static str)
    ensures
        r@ == (if i == 0 { "w-full"@ } else if i == 1 { "w-11/12"@ } else if i == 2 { "w-4/5"@ } else { "w-2/3"@ }),
{
    if i == 0 {
        "w-full"
    } else if i == 1 {
        "w-11/12"
    } else if i == 2 {
        "w-4/5"
    } else {
        "w-2/3"
    }
}

// ---------------------------------------------------------------------------
// Cards

/// Where a card links: the son's page.
pub fn son_href(s: &Son) -> (r: String)
    ensures
        r@ == "/son/"@ + s.slug@,
{
    let mut r = String::new();
    push_str(&mut r, "/son/");
    push_str(&mut r, s.slug.as_str());
    r
}

/// A card's aspect ratio, never dividing by a zero side.
pub fn aspect_ratio(width: u32, height: u32) -> (r: String)
    ensures
        r@ == decimal(if width == 0 { 1 } else { width as nat }) + " / "@
            + decimal(if height == 0 { 1 } else { height as nat }),
{
    let mut r = String::new();
    push_decimal(&mut r, if width == 0 { 1 } else { width as u64 });
    push_str(&mut r, " / ");
    push_decimal(&mut r, if height == 0 { 1 } else { height as u64 });
    r
}

/// Who a card credits.
pub fn byline(s: &Son) -> (r: String)
    ensures
        r@ == (match s.uploader {
            Some(u) => "by "@ + u.display_name@,
            None => "anonymous"@,
        }),
{
    let mut r = String::new();
    match &s.uploader {
        Some(u) => {
            push_str(&mut r, "by ");
            push_str(&mut r, u.display_name.as_str());
        }
        None => push_str(&mut r, "anonymous"),
    }
    r
}

/// `sons` without the one whose id is `exclude`, in order.
pub open spec fn without_id(sons: Seq<Son>, exclude: Option<Seq<char>>) -> Seq<Son>
    decreases sons.len(),
{
    if sons.len() == 0 {
        Seq::empty()
    } else {
        let rest = without_id(sons.drop_last(), exclude);
        if exclude == Some(sons.last().id@) { rest } else { rest.push(sons.last()) }
    }
}

/// The "more sons" strip under a son: the newest page without the son
/// already on screen.
pub fn more_sons(sons: Vec<Son>, exclude: Option<&str>) -> (r: Vec<Son>)
    ensures
        r@ == without_id(sons@, match exclude { Some(e) => Some(e@), None => None }),
{
    let ghost ex = match exclude { Some(e) => Some(e@), None => None::<Seq<char>> };
    let mut out: Vec<Son> = Vec::new();
    let mut i: usize = 0;
    proof { assert(sons@.take(0) =~= Seq::<Son>::empty()); }
    while i < sons.len()
        invariant
            i <= sons.len(),
            ex == (match exclude { Some(e) => Some(e@), None => None::<Seq<char>> }),
            out@ == without_id(sons@.take(i as int), ex),
        decreases sons.len() - i,
    {
        proof {
            assert(sons@.take(i as int + 1).drop_last() =~= sons@.take(i as int));
            assert(sons@.take(i as int + 1).last() == sons@[i as int]);
        }
        let skip = match exclude {
            Some(e) => {
                let c = chars_of(sons[i].id.as_str());
                equals(&c, e)
            }
            None => false,
        };
        if !skip {
            out.push(sons[i].copy());
        }
        i = i + 1;
    }
    proof { assert(sons@.take(sons@.len() as int) =~= sons@); }
    out
}

} // verus!
