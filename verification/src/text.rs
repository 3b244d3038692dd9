//! Character-level building blocks shared by every module that reads or
//! writes text: conversion between `&str` and character vectors, appending,
//! prefix and suffix tests, decimal and hexadecimal rendering, and the
//! character classes the site's rules depend on.
use vstd::prelude::*;

verus! {

/// `String::push`: appends one character to the end of the string.
#[verifier::external_body]
pub(crate) fn push_char(s: &mut String, c: char)
    ensures
        final(s)@ == old(s)@.push(c),
{
    s.push(c);
}

/// `String::push_str`: appends every character of `t`.
#[verifier::external_body]
pub(crate) fn push_str(s: &mut String, t: &str)
    ensures
        final(s)@ == old(s)@ + t@,
{
    s.push_str(t);
}

/// The characters of `s`, in order.
pub fn chars_of(s: &str) -> (r: Vec<char>)
    ensures
        r@ == s@,
{
    let mut r: Vec<char> = Vec::new();
    for c in it: s.chars()
        invariant
            r@ == it.seq().take(it.index() as int),
            it.seq() == s@,
    {
        r.push(c);
    }
    r
}

/// A `String` holding exactly the characters of `v`.
pub fn string_of(v: &[char]) -> (r: String)
    ensures
        r@ == v@,
{
    let mut r = String::new();
    push_chars(&mut r, v);
    r
}

/// Appends every character of `v` to `s`.
pub fn push_chars(s: &mut String, v: &[char])
    ensures
        final(s)@ == old(s)@ + v@,
{
    let ghost start = s@;
    let mut i: usize = 0;
    while i < v.len()
        invariant
            i <= v.len(),
            s@ == start + v@.take(i as int),
        decreases v.len() - i,
    {
        push_char(s, v[i]);
        proof { assert(v@.take(i as int + 1) == v@.take(i as int).push(v@[i as int])); }
        i = i + 1;
    }
    proof { assert(v@.take(v.len() as int) == v@); }
}

/// A `String` holding the characters of a literal.
pub fn owned(t: &str) -> (r: String)
    ensures
        r@ == t@,
{
    let mut r = String::new();
    push_str(&mut r, t);
    r
}

/// `p` is a prefix of `s`.
pub open spec fn starts(s: Seq<char>, p: Seq<char>) -> bool {
    p.len() <= s.len() && s.subrange(0, p.len() as int) == p
}

/// `p` is a suffix of `s`.
pub open spec fn ends(s: Seq<char>, p: Seq<char>) -> bool {
    p.len() <= s.len() && s.subrange(s.len() - p.len(), s.len() as int) == p
}

/// Whether `s` begins with the characters of `p`.
pub fn starts_with(s: &[char], p: &str) -> (b: bool)
    ensures
        b == starts(s@, p@),
{
    let pc = chars_of(p);
    if pc.len() > s.len() {
        return false;
    }
    let mut i: usize = 0;
    while i < pc.len()
        invariant
            pc@ == p@,
            pc.len() <= s.len(),
            i <= pc.len(),
            forall|j: int| 0 <= j < i ==> s@[j] == pc@[j],
        decreases pc.len() - i,
    {
        if s[i] != pc[i] {
            proof { assert(s@.subrange(0, pc@.len() as int)[i as int] != p@[i as int]); }
            return false;
        }
        i = i + 1;
    }
    proof { assert(s@.subrange(0, pc@.len() as int) =~= p@); }
    true
}

/// Whether `s` ends with the characters of `p`.
pub fn ends_with(s: &[char], p: &str) -> (b: bool)
    ensures
        b == ends(s@, p@),
{
    let pc = chars_of(p);
    if pc.len() > s.len() {
        return false;
    }
    let off = s.len() - pc.len();
    let mut i: usize = 0;
    while i < pc.len()
        invariant
            pc@ == p@,
            pc.len() <= s.len(),
            off == s.len() - pc.len(),
            i <= pc.len(),
            forall|j: int| 0 <= j < i ==> s@[off + j] == pc@[j],
        decreases pc.len() - i,
    {
        if s[off + i] != pc[i] {
            proof {
                assert(s@.subrange(off as int, s.len() as int)[i as int] != p@[i as int]);
            }
            return false;
        }
        i = i + 1;
    }
    proof { assert(s@.subrange(off as int, s@.len() as int) =~= p@); }
    true
}

/// Whether `s` is exactly the characters of `p`.
pub fn equals(s: &[char], p: &str) -> (b: bool)
    ensures
        b == (s@ == p@),
{
    let pc = chars_of(p);
    if pc.len() != s.len() {
        return false;
    }
    let r = starts_with(s, p);
    proof {
        if r {
            assert(s@.subrange(0, s@.len() as int) =~= s@);
        } else {
            assert(s@.subrange(0, s@.len() as int) =~= s@);
        }
    }
    r
}

/// Whether `c` occurs in `s`.
pub fn contains_char(s: &[char], c: char) -> (b: bool)
    ensures
        b == s@.contains(c),
{
    let mut i: usize = 0;
    while i < s.len()
        invariant
            i <= s.len(),
            forall|j: int| 0 <= j < i ==> s@[j] != c,
        decreases s.len() - i,
    {
        if s[i] == c {
            return true;
        }
        i = i + 1;
    }
    false
}

/// Characters `lo..hi` of `s`, copied.
pub fn slice(s: &[char], lo: usize, hi: usize) -> (r: Vec<char>)
    requires
        lo <= hi <= s.len(),
    ensures
        r@ == s@.subrange(lo as int, hi as int),
{
    let mut r: Vec<char> = Vec::new();
    let mut i = lo;
    while i < hi
        invariant
            lo <= i <= hi <= s.len(),
            r@ == s@.subrange(lo as int, i as int),
        decreases hi - i,
    {
        r.push(s[i]);
        proof {
            assert(s@.subrange(lo as int, i as int + 1)
                == s@.subrange(lo as int, i as int).push(s@[i as int]));
        }
        i = i + 1;
    }
    r
}

/// Index of the first occurrence of `c` in `s`, if any.
pub open spec fn first_index(s: Seq<char>, c: char) -> Option<int>
    decreases s.len(),
{
    if s.len() == 0 {
        None
    } else if s[0] == c {
        Some(0)
    } else {
        match first_index(s.drop_first(), c) {
            Some(i) => Some(i + 1),
            None => None,
        }
    }
}

pub proof fn lemma_first_index(s: Seq<char>, c: char)
    ensures
        match first_index(s, c) {
            Some(i) => 0 <= i < s.len() && s[i] == c && forall|j: int| 0 <= j < i ==> s[j] != c,
            None => forall|j: int| 0 <= j < s.len() ==> s[j] != c,
        },
    decreases s.len(),
{
    if s.len() > 0 && s[0] != c {
        lemma_first_index(s.drop_first(), c);
        match first_index(s.drop_first(), c) {
            Some(i) => {
                assert forall|j: int| 0 <= j < i + 1 implies s[j] != c by {
                    if j > 0 { assert(s[j] == s.drop_first()[j - 1]); }
                }
            }
            None => {
                assert forall|j: int| 0 <= j < s.len() implies s[j] != c by {
                    if j > 0 { assert(s[j] == s.drop_first()[j - 1]); }
                }
            }
        }
    }
}

/// A characterisation of `first_index` by its defining property.
pub proof fn lemma_first_index_is(s: Seq<char>, c: char, i: int)
    requires
        0 <= i < s.len(),
        s[i] == c,
        forall|j: int| 0 <= j < i ==> s[j] != c,
    ensures
        first_index(s, c) == Some(i),
{
    lemma_first_index(s, c);
    match first_index(s, c) {
        Some(k) => {
            if k < i { assert(s[k] == c); }
            if k > i { assert(s[i] != c); }
        }
        None => { assert(s[i] != c); }
    }
}

/// Position of the first `c` in `s`.
pub fn find_char(s: &[char], c: char) -> (r: Option<usize>)
    ensures
        match r {
            Some(i) => first_index(s@, c) == Some(i as int) && i < s@.len(),
            None => first_index(s@, c) is None,
        },
{
    proof { lemma_first_index(s@, c); }
    let mut i: usize = 0;
    while i < s.len()
        invariant
            i <= s.len(),
            forall|j: int| 0 <= j < i ==> s@[j] != c,
        decreases s.len() - i,
    {
        if s[i] == c {
            proof { lemma_first_index_is(s@, c, i as int); }
            return Some(i);
        }
        i = i + 1;
    }
    proof {
        match first_index(s@, c) {
            Some(k) => { assert(s@[k] == c); }
            None => {}
        }
    }
    None
}

/// ASCII decimal digit.
pub open spec fn is_digit(c: char) -> bool {
    '0' <= c && c <= '9'
}

/// ASCII letter or digit.
pub open spec fn is_ascii_alnum(c: char) -> bool {
    ('0' <= c && c <= '9') || ('a' <= c && c <= 'z') || ('A' <= c && c <= 'Z')
}

/// `char::is_control`: the Unicode general category Cc, which is exactly
/// U+0000..=U+001F and U+007F..=U+009F.
pub open spec fn is_control(c: char) -> bool {
    (c as u32) < 0x20 || (0x7f <= (c as u32) && (c as u32) <= 0x9f)
}

/// `char::is_whitespace`: the Unicode `White_Space` property.
pub open spec fn is_white(c: char) -> bool {
    let n = c as u32;
    (0x09 <= n && n <= 0x0d) || n == 0x20 || n == 0x85 || n == 0xa0 || n == 0x1680
        || (0x2000 <= n && n <= 0x200a) || n == 0x2028 || n == 0x2029 || n == 0x202f
        || n == 0x205f || n == 0x3000
}

pub fn char_is_digit(c: char) -> (b: bool)
    ensures
        b == is_digit(c),
{
    '0' <= c && c <= '9'
}

pub fn char_is_ascii_alnum(c: char) -> (b: bool)
    ensures
        b == is_ascii_alnum(c),
{
    ('0' <= c && c <= '9') || ('a' <= c && c <= 'z') || ('A' <= c && c <= 'Z')
}

pub fn char_is_control(c: char) -> (b: bool)
    ensures
        b == is_control(c),
{
    let n = c as u32;
    n < 0x20 || (0x7f <= n && n <= 0x9f)
}

pub fn char_is_white(c: char) -> (b: bool)
    ensures
        b == is_white(c),
{
    let n = c as u32;
    (0x09 <= n && n <= 0x0d) || n == 0x20 || n == 0x85 || n == 0xa0 || n == 0x1680
        || (0x2000 <= n && n <= 0x200a) || n == 0x2028 || n == 0x2029 || n == 0x202f
        || n == 0x205f || n == 0x3000
}

/// Number of leading characters of `s` that are white space.
pub open spec fn lead_white(s: Seq<char>) -> nat
    decreases s.len(),
{
    if s.len() > 0 && is_white(s[0]) {
        1 + lead_white(s.drop_first())
    } else {
        0
    }
}

/// Number of trailing characters of `s` that are white space.
pub open spec fn trail_white(s: Seq<char>) -> nat
    decreases s.len(),
{
    if s.len() > 0 && is_white(s.last()) {
        1 + trail_white(s.drop_last())
    } else {
        0
    }
}

/// `str::trim`: `s` without its leading and trailing white space.
pub open spec fn trimmed(s: Seq<char>) -> Seq<char> {
    let t = s.skip(lead_white(s) as int);
    t.take(t.len() - trail_white(t))
}

pub proof fn lemma_lead_white(s: Seq<char>)
    ensures
        lead_white(s) <= s.len(),
        forall|j: int| 0 <= j < lead_white(s) ==> is_white(#[trigger] s[j]),
        lead_white(s) < s.len() ==> !is_white(s[lead_white(s) as int]),
    decreases s.len(),
{
    if s.len() > 0 && is_white(s[0]) {
        lemma_lead_white(s.drop_first());
        assert forall|j: int| 0 <= j < lead_white(s) implies is_white(#[trigger] s[j]) by {
            if j > 0 { assert(s[j] == s.drop_first()[j - 1]); }
        }
    }
}

pub proof fn lemma_lead_white_is(s: Seq<char>, k: int)
    requires
        0 <= k <= s.len(),
        forall|j: int| 0 <= j < k ==> is_white(#[trigger] s[j]),
        k < s.len() ==> !is_white(s[k]),
    ensures
        lead_white(s) == k,
    decreases s.len(),
{
    if k > 0 {
        assert(is_white(s[0]));
        assert forall|j: int| 0 <= j < k - 1 implies is_white(#[trigger] s.drop_first()[j]) by {
            assert(s.drop_first()[j] == s[j + 1]);
        }
        if k - 1 < s.drop_first().len() { assert(s.drop_first()[k - 1] == s[k]); }
        lemma_lead_white_is(s.drop_first(), k - 1);
    }
}

pub proof fn lemma_trail_white_is(s: Seq<char>, k: int)
    requires
        0 <= k <= s.len(),
        forall|j: int| s.len() - k <= j < s.len() ==> is_white(#[trigger] s[j]),
        k < s.len() ==> !is_white(s[s.len() - k - 1]),
    ensures
        trail_white(s) == k,
    decreases s.len(),
{
    if k > 0 {
        assert(is_white(s[s.len() - 1]));
        let d = s.drop_last();
        assert forall|j: int| d.len() - (k - 1) <= j < d.len() implies is_white(#[trigger] d[j]) by {
            assert(d[j] == s[j]);
        }
        if k - 1 < d.len() { assert(d[d.len() - (k - 1) - 1] == s[s.len() - k - 1]); }
        lemma_trail_white_is(d, k - 1);
    }
}

/// `str::trim` over characters.
pub fn trim(s: &[char]) -> (r: Vec<char>)
    ensures
        r@ == trimmed(s@),
{
    let mut lo: usize = 0;
    while lo < s.len() && char_is_white(s[lo])
        invariant
            lo <= s.len(),
            forall|j: int| 0 <= j < lo ==> is_white(#[trigger] s@[j]),
        decreases s.len() - lo,
    {
        lo = lo + 1;
    }
    proof { lemma_lead_white_is(s@, lo as int); }
    let mut hi: usize = s.len();
    while hi > lo && char_is_white(s[hi - 1])
        invariant
            lo <= hi <= s.len(),
            forall|j: int| hi <= j < s.len() ==> is_white(#[trigger] s@[j]),
        decreases hi - lo,
    {
        hi = hi - 1;
    }
    proof {
        let t = s@.skip(lo as int);
        assert forall|j: int| t.len() - (s.len() - hi) <= j < t.len() implies is_white(#[trigger] t[j]) by {
            assert(t[j] == s@[j + lo]);
        }
        if s.len() - hi < t.len() {
            assert(t[t.len() - (s.len() - hi) - 1] == s@[hi - 1]);
        }
        lemma_trail_white_is(t, s.len() - hi);
        assert(t.take(t.len() - (s.len() - hi)) =~= s@.subrange(lo as int, hi as int));
    }
    slice(s, lo, hi)
}

/// The decimal digit character for `d < 10`.
pub open spec fn digit_char(d: nat) -> char {
    (('0' as u32) + d) as char
}

/// `n` written in decimal, without leading zeros.
pub open spec fn decimal(n: nat) -> Seq<char>
    decreases n,
{
    if n < 10 {
        seq![digit_char(n)]
    } else {
        decimal(n / 10).push(digit_char(n % 10))
    }
}

/// A hexadecimal digit character for `d < 16`, upper or lower case.
pub open spec fn hex_char(d: nat, upper: bool) -> char {
    if d < 10 {
        (('0' as u32) + d) as char
    } else if upper {
        (('A' as u32) + (d - 10)) as char
    } else {
        (('a' as u32) + (d - 10)) as char
    }
}

/// `n` in hexadecimal, without leading zeros.
pub open spec fn hex(n: nat, upper: bool) -> Seq<char>
    decreases n,
{
    if n < 16 {
        seq![hex_char(n, upper)]
    } else {
        hex(n / 16, upper).push(hex_char(n % 16, upper))
    }
}

/// `digits` left-padded with `'0'` to at least `width` characters, as
/// `format!("{:0width$x}")` does.
pub open spec fn zero_pad(digits: Seq<char>, width: nat) -> Seq<char> {
    if digits.len() >= width {
        digits
    } else {
        Seq::new((width - digits.len()) as nat, |_i: int| '0') + digits
    }
}

fn digit_of(d: u64) -> (c: char)
    requires
        d < 10,
    ensures
        c == digit_char(d as nat),
{
    (48u8 + d as u8) as char
}

fn hex_digit_of(d: u64, upper: bool) -> (c: char)
    requires
        d < 16,
    ensures
        c == hex_char(d as nat, upper),
{
    let v: u8 = if d < 10 {
        48u8 + d as u8
    } else if upper {
        65u8 + (d as u8 - 10)
    } else {
        97u8 + (d as u8 - 10)
    };
    v as char
}

/// Appends `n` in decimal.
pub fn push_decimal(s: &mut String, n: u64)
    ensures
        final(s)@ == old(s)@ + decimal(n as nat),
    decreases n,
{
    if n >= 10 {
        push_decimal(s, n / 10);
    }
    push_char(s, digit_of(n % 10));
    proof {
        if n >= 10 {
            assert(decimal(n as nat) == decimal((n / 10) as nat).push(digit_char((n % 10) as nat)));
        }
    }
}

/// Appends `n` in hexadecimal.
pub fn push_hex(s: &mut String, n: u64, upper: bool)
    ensures
        final(s)@ == old(s)@ + hex(n as nat, upper),
    decreases n,
{
    if n >= 16 {
        push_hex(s, n / 16, upper);
    }
    push_char(s, hex_digit_of(n % 16, upper));
    proof {
        if n >= 16 {
            assert(hex(n as nat, upper) == hex((n / 16) as nat, upper).push(
                hex_char((n % 16) as nat, upper),
            ));
        }
    }
}

pub proof fn lemma_hex_len(n: nat, upper: bool)
    ensures
        hex(n, upper).len() >= 1,
        n < 16 ==> hex(n, upper).len() == 1,
        n < 256 ==> hex(n, upper).len() <= 2,
    decreases n,
{
    if n >= 16 {
        lemma_hex_len(n / 16, upper);
    }
}

pub open spec fn pow16(k: nat) -> nat
    decreases k,
{
    if k == 0 { 1 } else { 16 * pow16((k - 1) as nat) }
}

pub proof fn lemma_hex_len_bound(n: nat, k: nat, upper: bool)
    requires
        k >= 1,
        n < pow16(k),
    ensures
        hex(n, upper).len() <= k,
    decreases k,
{
    if n >= 16 {
        assert(k >= 2) by {
            if k == 1 { assert(pow16(1) == 16 * pow16(0)); }
        }
        assert(pow16(k) == 16 * pow16((k - 1) as nat));
        assert(n / 16 < pow16((k - 1) as nat));
        lemma_hex_len_bound(n / 16, (k - 1) as nat, upper);
    }
}

/// Appends `n` in hexadecimal, zero-padded to at least `width` digits.
pub fn push_hex_padded(s: &mut String, n: u64, width: usize, upper: bool)
    requires
        width <= 16,
    ensures
        final(s)@ == old(s)@ + zero_pad(hex(n as nat, upper), width as nat),
{
    let mut digits = String::new();
    push_hex(&mut digits, n, upper);
    let len = hex_len(n);
    let ghost d = hex(n as nat, upper);
    let ghost start = s@;
    if len < width {
        let mut k: usize = 0;
        while k < width - len
            invariant
                len < width,
                k <= width - len,
                s@ == start + Seq::new(k as nat, |_i: int| '0'),
            decreases width - len - k,
        {
            push_char(s, '0');
            proof {
                assert(Seq::new((k + 1) as nat, |_i: int| '0')
                    =~= Seq::new(k as nat, |_i: int| '0').push('0'));
            }
            k = k + 1;
        }
    }
    push_str(s, digits.as_str());
    proof {
        assert(d.len() == len as nat);
        if len < width {
            assert(start + Seq::new((width - len) as nat, |_i: int| '0') + d
                =~= start + (Seq::new((width - d.len()) as nat, |_i: int| '0') + d));
        } else {
            assert(start + d =~= start + d);
        }
    }
}

/// Number of hexadecimal digits of `n`.
fn hex_len(n: u64) -> (r: usize)
    ensures
        r <= 16,
        r as nat == hex(n as nat, true).len(),
        r as nat == hex(n as nat, false).len(),
    decreases n,
{
    if n < 16 {
        1
    } else {
        let r = hex_len(n / 16);
        proof {
            reveal_with_fuel(pow16, 16);
            assert(pow16(15) == 0x1000000000000000nat);
            lemma_hex_len_bound((n / 16) as nat, 15, true);
            lemma_hex_len_bound((n / 16) as nat, 15, false);
        }
        r + 1
    }
}

/// Every character of `s` replaced by `f` of it, concatenated.
pub open spec fn flat_map(s: Seq<char>, f: spec_fn(char) -> Seq<char>) -> Seq<char>
    decreases s.len(),
{
    if s.len() == 0 {
        Seq::empty()
    } else {
        flat_map(s.drop_last(), f) + f(s.last())
    }
}

pub proof fn lemma_flat_map_step(s: Seq<char>, i: int, f: spec_fn(char) -> Seq<char>)
    requires
        0 <= i < s.len(),
    ensures
        flat_map(s.take(i + 1), f) == flat_map(s.take(i), f) + f(s[i]),
{
    assert(s.take(i + 1).drop_last() =~= s.take(i));
}

pub proof fn lemma_flat_map_append(a: Seq<char>, b: Seq<char>, f: spec_fn(char) -> Seq<char>)
    ensures
        flat_map(a + b, f) == flat_map(a, f) + flat_map(b, f),
    decreases b.len(),
{
    if b.len() == 0 {
        assert(a + b =~= a);
        assert(flat_map(a, f) + Seq::empty() =~= flat_map(a, f));
    } else {
        assert((a + b).drop_last() =~= a + b.drop_last());
        lemma_flat_map_append(a, b.drop_last(), f);
        assert(flat_map(a, f) + flat_map(b.drop_last(), f) + f(b.last())
            =~= flat_map(a, f) + (flat_map(b.drop_last(), f) + f(b.last())));
    }
}

/// No character of `flat_map(s, f)` satisfies `bad` when no `f(c)` has one.
pub proof fn lemma_flat_map_avoids(s: Seq<char>, f: spec_fn(char) -> Seq<char>, bad: spec_fn(char) -> bool)
    requires
        forall|c: char, j: int| 0 <= j < f(c).len() ==> !bad(#[trigger] f(c)[j]),
    ensures
        forall|j: int| 0 <= j < flat_map(s, f).len() ==> !bad(#[trigger] flat_map(s, f)[j]),
    decreases s.len(),
{
    if s.len() > 0 {
        lemma_flat_map_avoids(s.drop_last(), f, bad);
        let a = flat_map(s.drop_last(), f);
        let b = f(s.last());
        assert forall|j: int| 0 <= j < (a + b).len() implies !bad(#[trigger] (a + b)[j]) by {
            if j >= a.len() {
                assert((a + b)[j] == b[j - a.len()]);
            }
        }
    }
}

/// `s` without any trailing `c`, as `str::trim_end_matches(c)`.
pub open spec fn trim_end(s: Seq<char>, c: char) -> Seq<char>
    decreases s.len(),
{
    if s.len() > 0 && s.last() == c {
        trim_end(s.drop_last(), c)
    } else {
        s
    }
}

pub fn trim_end_char(s: &[char], c: char) -> (r: Vec<char>)
    ensures
        r@ == trim_end(s@, c),
{
    let mut hi = s.len();
    proof { assert(s@.take(hi as int) =~= s@); }
    while hi > 0 && s[hi - 1] == c
        invariant
            hi <= s.len(),
            trim_end(s@, c) == trim_end(s@.take(hi as int), c),
        decreases hi,
    {
        proof { assert(s@.take(hi as int).drop_last() =~= s@.take(hi as int - 1)); }
        hi = hi - 1;
    }
    proof {
        if hi == 0 {
        }
        assert(trim_end(s@.take(hi as int), c) == s@.take(hi as int));
    }
    let r = slice(s, 0, hi);
    proof { assert(r@ =~= s@.take(hi as int)); }
    r
}

/// Index of the first occurrence of `p` in `s` (for non-empty `p`).
pub open spec fn find_sub(s: Seq<char>, p: Seq<char>) -> Option<int>
    decreases s.len(),
{
    if p.len() > s.len() {
        None
    } else if s.subrange(0, p.len() as int) == p {
        Some(0)
    } else if s.len() == 0 {
        None
    } else {
        match find_sub(s.drop_first(), p) {
            Some(i) => Some(i + 1),
            None => None,
        }
    }
}

proof fn lemma_find_sub_shift(s: Seq<char>, p: Seq<char>, i: int)
    requires
        0 <= i <= s.len(),
        forall|j: int| 0 <= j < i ==> !(j + p.len() <= s.len() && #[trigger] s.subrange(j, j + p.len()) == p),
    ensures
        find_sub(s, p) == (match find_sub(s.subrange(i, s.len() as int), p) {
            Some(k) => Some(k + i),
            None => None,
        }),
    decreases i,
{
    if i > 0 {
        assert(s.subrange(0, s.len() as int) =~= s);
        if p.len() <= s.len() {
            assert(!(0 + p.len() <= s.len() && s.subrange(0, 0 + p.len() as int) == p));
        }
        let t = s.drop_first();
        assert forall|j: int| 0 <= j < i - 1 implies !(j + p.len() <= t.len() && #[trigger] t.subrange(j, j + p.len()) == p) by {
            if j + p.len() <= t.len() {
                assert(t.subrange(j, j + p.len()) =~= s.subrange(j + 1, j + 1 + p.len()));
            }
        }
        lemma_find_sub_shift(t, p, i - 1);
        assert(t.subrange(i - 1, t.len() as int) =~= s.subrange(i, s.len() as int));
    } else {
        assert(s.subrange(0, s.len() as int) =~= s);
    }
}

/// A text that occurs somewhere is found.
pub proof fn lemma_find_sub_finds(s: Seq<char>, p: Seq<char>, i: int)
    requires
        0 <= i,
        i + p.len() <= s.len(),
        s.subrange(i, i + p.len()) == p,
    ensures
        find_sub(s, p) is Some,
    decreases i,
{
    if i > 0 && s.subrange(0, p.len() as int) != p {
        let t = s.drop_first();
        assert(t.subrange(i - 1, i - 1 + p.len()) =~= s.subrange(i, i + p.len()));
        lemma_find_sub_finds(t, p, i - 1);
    }
}

pub proof fn lemma_find_sub(s: Seq<char>, p: Seq<char>)
    ensures
        match find_sub(s, p) {
            Some(i) => 0 <= i && i + p.len() <= s.len() && s.subrange(i, i + p.len()) == p,
            None => true,
        },
    decreases s.len(),
{
    if p.len() <= s.len() && s.subrange(0, p.len() as int) != p && s.len() > 0 {
        lemma_find_sub(s.drop_first(), p);
        match find_sub(s.drop_first(), p) {
            Some(i) => {
                assert(s.drop_first().subrange(i, i + p.len()) =~= s.subrange(i + 1, i + 1 + p.len()));
            }
            None => {}
        }
    }
}

/// Position of the first occurrence of the non-empty literal `p` in `s`.
pub fn find_str(s: &[char], p: &str) -> (r: Option<usize>)
    requires
        p@.len() > 0,
    ensures
        match r {
            Some(i) => find_sub(s@, p@) == Some(i as int) && i + p@.len() <= s@.len(),
            None => find_sub(s@, p@) is None,
        },
{
    proof { lemma_find_sub(s@, p@); }
    let pc = chars_of(p);
    let mut i: usize = 0;
    while i < s.len()
        invariant
            pc@ == p@,
            p@.len() > 0,
            i <= s.len(),
            forall|j: int| 0 <= j < i ==> !(j + p@.len() <= s@.len() && #[trigger] s@.subrange(j, j + p@.len()) == p@),
        decreases s.len() - i,
    {
        if pc.len() <= s.len() - i {
            let mut k: usize = 0;
            let mut same = true;
            while k < pc.len()
                invariant
                    pc@ == p@,
                    i + pc.len() <= s.len(),
                    k <= pc.len(),
                    same == forall|t: int| 0 <= t < k ==> s@[i + t] == pc@[t],
                decreases pc.len() - k,
            {
                if s[i + k] != pc[k] {
                    same = false;
                }
                k = k + 1;
            }
            if same {
                proof {
                    assert(s@.subrange(i as int, i + p@.len()) =~= p@);
                    lemma_find_sub_shift(s@, p@, i as int);
                    let t = s@.subrange(i as int, s@.len() as int);
                    assert(t.subrange(0, p@.len() as int) =~= p@);
                }
                return Some(i);
            }
            proof {
                assert(!(s@.subrange(i as int, i + p@.len()) == p@)) by {
                    let t0 = choose|t: int| 0 <= t < k && s@[i + t] != pc@[t];
                    assert(s@.subrange(i as int, i + p@.len())[t0] != p@[t0]);
                }
            }
        }
        i = i + 1;
    }
    proof {
        lemma_find_sub_shift(s@, p@, s@.len() as int);
        assert(s@.subrange(s@.len() as int, s@.len() as int) =~= Seq::<char>::empty());
        let e = Seq::<char>::empty();
        assert(find_sub(e, p@) is None);
    }
    None
}

/// Index of the first character of `s` that is `a` or `b`.
pub open spec fn first_of2(s: Seq<char>, a: char, b: char) -> Option<int>
    decreases s.len(),
{
    if s.len() == 0 {
        None
    } else if s[0] == a || s[0] == b {
        Some(0)
    } else {
        match first_of2(s.drop_first(), a, b) {
            Some(i) => Some(i + 1),
            None => None,
        }
    }
}

/// `s` up to (not including) its first `a` or `b`: the first piece of
/// `str::split([a, b])`.
pub open spec fn before_first2(s: Seq<char>, a: char, b: char) -> Seq<char> {
    match first_of2(s, a, b) {
        Some(i) => s.take(i),
        None => s,
    }
}

proof fn lemma_first_of2_shift(s: Seq<char>, a: char, b: char, i: int)
    requires
        0 <= i <= s.len(),
        forall|j: int| 0 <= j < i ==> s[j] != a && s[j] != b,
    ensures
        first_of2(s, a, b) == (match first_of2(s.subrange(i, s.len() as int), a, b) {
            Some(k) => Some(k + i),
            None => None,
        }),
    decreases i,
{
    if i > 0 {
        let t = s.drop_first();
        lemma_first_of2_shift(t, a, b, i - 1);
        assert(t.subrange(i - 1, t.len() as int) =~= s.subrange(i, s.len() as int));
    } else {
        assert(s.subrange(0, s.len() as int) =~= s);
    }
}

pub fn take_before2(s: &[char], a: char, b: char) -> (r: Vec<char>)
    ensures
        r@ == before_first2(s@, a, b),
{
    let mut i: usize = 0;
    while i < s.len() && s[i] != a && s[i] != b
        invariant
            i <= s.len(),
            forall|j: int| 0 <= j < i ==> s@[j] != a && s@[j] != b,
        decreases s.len() - i,
    {
        i = i + 1;
    }
    proof {
        lemma_first_of2_shift(s@, a, b, i as int);
        let t = s@.subrange(i as int, s@.len() as int);
        if i < s.len() {
            assert(t[0] == s@[i as int]);
        } else {
            assert(t.len() == 0);
        }
    }
    let r = slice(s, 0, i);
    proof {
        if i == s.len() { assert(r@ =~= s@); }
    }
    r
}

/// Hexadecimal digits are ASCII digits or letters.
pub proof fn lemma_hex_chars(n: nat, upper: bool)
    ensures
        forall|j: int| 0 <= j < hex(n, upper).len() ==> is_ascii_alnum(#[trigger] hex(n, upper)[j]),
    decreases n,
{
    if n >= 16 {
        lemma_hex_chars(n / 16, upper);
        let d = n % 16;
        assert(is_ascii_alnum(hex_char(d, upper)));
        let h = hex(n, upper);
        let p = hex(n / 16, upper);
        assert(h == p.push(hex_char(d, upper)));
        assert forall|j: int| 0 <= j < h.len() implies is_ascii_alnum(#[trigger] h[j]) by {
            if j < p.len() { assert(h[j] == p[j]); }
        }
    } else {
        assert(is_ascii_alnum(hex_char(n, upper)));
    }
}

/// Every character of `s` is an ASCII digit.
pub open spec fn all_digits(s: Seq<char>) -> bool {
    forall|i: int| 0 <= i < s.len() ==> is_digit(#[trigger] s[i])
}

/// Whether characters `lo..hi` of `s` are all ASCII digits.
pub fn digits_in(s: &[char], lo: usize, hi: usize) -> (b: bool)
    requires
        lo <= hi <= s.len(),
    ensures
        b == all_digits(s@.subrange(lo as int, hi as int)),
{
    let mut i = lo;
    while i < hi
        invariant
            lo <= i <= hi <= s.len(),
            forall|j: int| lo <= j < i ==> is_digit(#[trigger] s@[j]),
        decreases hi - i,
    {
        if !char_is_digit(s[i]) {
            proof { assert(!is_digit(s@.subrange(lo as int, hi as int)[i - lo])); }
            return false;
        }
        i = i + 1;
    }
    proof {
        assert forall|j: int| 0 <= j < hi - lo implies is_digit(#[trigger] s@.subrange(lo as int, hi as int)[j]) by {
            assert(s@.subrange(lo as int, hi as int)[j] == s@[lo + j]);
        }
    }
    true
}

/// Number of leading ASCII digits of `s`.
pub open spec fn lead_digits(s: Seq<char>) -> nat
    decreases s.len(),
{
    if s.len() > 0 && is_digit(s[0]) {
        1 + lead_digits(s.drop_first())
    } else {
        0
    }
}

pub proof fn lemma_lead_digits_is(s: Seq<char>, k: int)
    requires
        0 <= k <= s.len(),
        forall|j: int| 0 <= j < k ==> is_digit(#[trigger] s[j]),
        k < s.len() ==> !is_digit(s[k]),
    ensures
        lead_digits(s) == k,
    decreases s.len(),
{
    if k > 0 {
        assert forall|j: int| 0 <= j < k - 1 implies is_digit(#[trigger] s.drop_first()[j]) by {
            assert(s.drop_first()[j] == s[j + 1]);
        }
        if k - 1 < s.drop_first().len() { assert(s.drop_first()[k - 1] == s[k]); }
        lemma_lead_digits_is(s.drop_first(), k - 1);
    }
}

/// Counts the leading ASCII digits of `s` from position `lo`.
pub fn count_digits(s: &[char], lo: usize) -> (n: usize)
    requires
        lo <= s.len(),
    ensures
        n as nat == lead_digits(s@.skip(lo as int)),
        lo + n <= s.len(),
{
    let mut i = lo;
    while i < s.len() && char_is_digit(s[i])
        invariant
            lo <= i <= s.len(),
            forall|j: int| lo <= j < i ==> is_digit(#[trigger] s@[j]),
        decreases s.len() - i,
    {
        i = i + 1;
    }
    proof {
        let t = s@.skip(lo as int);
        assert forall|j: int| 0 <= j < i - lo implies is_digit(#[trigger] t[j]) by {
            assert(t[j] == s@[lo + j]);
        }
        if i < s.len() { assert(t[i - lo] == s@[i as int]); }
        lemma_lead_digits_is(t, i - lo);
    }
    i - lo
}

/// `s` without any leading `c`, as `str::trim_start_matches(c)`.
pub open spec fn trim_start(s: Seq<char>, c: char) -> Seq<char>
    decreases s.len(),
{
    if s.len() > 0 && s[0] == c {
        trim_start(s.drop_first(), c)
    } else {
        s
    }
}

pub fn trim_start_char(s: &[char], c: char) -> (r: Vec<char>)
    ensures
        r@ == trim_start(s@, c),
{
    let mut lo: usize = 0;
    proof { assert(s@.skip(0) =~= s@); }
    while lo < s.len() && s[lo] == c
        invariant
            lo <= s.len(),
            trim_start(s@, c) == trim_start(s@.skip(lo as int), c),
        decreases s.len() - lo,
    {
        proof { assert(s@.skip(lo as int).drop_first() =~= s@.skip(lo as int + 1)); }
        lo = lo + 1;
    }
    let r = slice(s, lo, s.len());
    proof { assert(r@ =~= s@.skip(lo as int)); }
    r
}


pub proof fn lemma_flat_map_cons(c: char, rest: Seq<char>, f: spec_fn(char) -> Seq<char>)
    ensures
        flat_map(seq![c] + rest, f) == f(c) + flat_map(rest, f),
{
    lemma_flat_map_append(seq![c], rest, f);
    assert(seq![c].drop_last() =~= Seq::<char>::empty());
    assert(seq![c].last() == c);
    assert(flat_map(Seq::<char>::empty(), f) == Seq::<char>::empty());
    assert(flat_map(seq![c], f) == flat_map(Seq::<char>::empty(), f) + f(c));
    assert(Seq::<char>::empty() + f(c) =~= f(c));
}

/// Whether `c` is a hexadecimal digit, in either case.
pub open spec fn is_hex_digit(c: char) -> bool {
    ||| (48 <= (c as u32) <= 57)
    ||| (97 <= (c as u32) <= 102)
    ||| (65 <= (c as u32) <= 70)
}

/// The value of a hexadecimal digit.
pub open spec fn hex_digit_value(c: char) -> nat {
    if 48 <= (c as u32) <= 57 {
        ((c as u32) - 48) as nat
    } else if 97 <= (c as u32) <= 102 {
        ((c as u32) - 87) as nat
    } else {
        ((c as u32) - 55) as nat
    }
}

/// `v` with `c` in front, where there is a `v`.
pub open spec fn prepend(c: char, v: Option<Seq<char>>) -> Option<Seq<char>> {
    match v {
        Some(v) => Some(seq![c] + v),
        None => None,
    }
}

/// A hexadecimal digit reads back as its value.
pub proof fn lemma_hex_char_value(d: nat, upper: bool)
    requires
        d < 16,
    ensures
        is_hex_digit(hex_char(d, upper)),
        hex_digit_value(hex_char(d, upper)) == d,
{
}

} // verus!
