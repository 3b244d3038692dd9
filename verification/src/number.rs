//! Integers to and from decimal text, with the exact acceptance rules of
//! `str::parse` for the integer types: an optional sign, then at least one
//! ASCII digit and nothing else, and the value in range.
use vstd::prelude::*;
use crate::text::{all_digits, is_digit, decimal, digit_char, push_char, push_decimal};

verus! {

/// The value of a run of ASCII digits.
pub open spec fn digits_value(s: Seq<char>) -> nat
    decreases s.len(),
{
    if s.len() == 0 {
        0
    } else {
        digits_value(s.drop_last()) * 10 + ((s.last() as u32) - ('0' as u32)) as nat
    }
}

/// A longer run of digits is worth at least as much as any prefix of it.
pub proof fn lemma_digits_mono(s: Seq<char>, j: int)
    requires
        all_digits(s),
        0 <= j <= s.len(),
    ensures
        digits_value(s.take(j)) <= digits_value(s),
    decreases s.len(),
{
    if j < s.len() {
        let t = s.drop_last();
        assert(all_digits(t)) by {
            assert forall|i: int| 0 <= i < t.len() implies is_digit(#[trigger] t[i]) by {
                assert(t[i] == s[i]);
            }
        }
        lemma_digits_mono(t, j);
        assert(t.take(j) =~= s.take(j));
        assert(is_digit(s[s.len() - 1]));
    } else {
        assert(s.take(j) =~= s);
    }
}

/// Decimal digits read back as a number give that number.
pub proof fn lemma_decimal_value(n: nat)
    ensures
        digits_value(decimal(n)) == n,
        all_digits(decimal(n)),
        decimal(n).len() > 0,
    decreases n,
{
    if n >= 10 {
        lemma_decimal_value(n / 10);
        let d = decimal(n / 10);
        let e = d.push(digit_char(n % 10));
        assert(e.drop_last() =~= d);
        assert((digit_char(n % 10) as u32) == 48 + n % 10);
        assert(digits_value(e) == digits_value(d) * 10 + n % 10);
        assert((n / 10) * 10 + n % 10 == n) by (nonlinear_arith);
        assert(decimal(n) == e);
        assert(digits_value(e) == n);
        assert forall|i: int| 0 <= i < e.len() implies is_digit(#[trigger] e[i]) by {
            if i < d.len() {
                assert(e[i] == d[i]);
            }
        }
    } else {
        let e = seq![digit_char(n)];
        assert(e.drop_last() =~= Seq::<char>::empty());
        assert((digit_char(n) as u32) == 48 + n);
        assert(('0' as u32) == 48);
        assert(digits_value(Seq::<char>::empty()) == 0);
        assert(digits_value(e) == n);
        assert(decimal(n) == e);
    }
}

/// The sign and the digits after it: `-` marks a negative value, and one
/// leading `+` is accepted and dropped.
pub open spec fn split_sign(s: Seq<char>) -> (bool, Seq<char>) {
    if s.len() > 0 && s[0] == '-' {
        (true, s.drop_first())
    } else if s.len() > 0 && s[0] == '+' {
        (false, s.drop_first())
    } else {
        (false, s)
    }
}

/// What `s.parse::<i64>()` gives: `None` for an error.
pub open spec fn spec_parse_i64(s: Seq<char>) -> Option<i64> {
    let neg = split_sign(s).0;
    let body = split_sign(s).1;
    if body.len() == 0 || !all_digits(body) {
        None
    } else {
        let v: int = if neg { -(digits_value(body) as int) } else { digits_value(body) as int };
        if i64::MIN <= v && v <= i64::MAX {
            Some(v as i64)
        } else {
            None
        }
    }
}

/// What `s.parse()` gives for an unsigned type whose largest value is `max`:
/// an optional `+`, then digits; `-` is refused.
pub open spec fn spec_parse_unsigned(s: Seq<char>, max: nat) -> Option<nat> {
    let body = if s.len() > 0 && s[0] == '+' { s.drop_first() } else { s };
    if body.len() == 0 || !all_digits(body) || digits_value(body) > max {
        None
    } else {
        Some(digits_value(body))
    }
}

/// The value of characters `lo..` of `s` when they are all digits and it
/// does not exceed `limit`; `None` otherwise.
fn digits_upto(s: &[char], lo: usize, limit: u64) -> (r: Option<u64>)
    requires
        lo <= s.len(),
    ensures
        match r {
            Some(v) => all_digits(s@.skip(lo as int)) && v as nat == digits_value(s@.skip(lo as int))
                && v <= limit,
            None => !all_digits(s@.skip(lo as int)) || digits_value(s@.skip(lo as int)) > limit,
        },
{
    let ghost body = s@.skip(lo as int);
    let mut acc: u64 = 0;
    let mut i = lo;
    proof { assert(s@.subrange(lo as int, lo as int) =~= Seq::<char>::empty()); }
    while i < s.len()
        invariant
            lo <= i <= s.len(),
            body == s@.skip(lo as int),
            acc <= limit,
            acc as nat == digits_value(s@.subrange(lo as int, i as int)),
            forall|k: int| lo <= k < i ==> is_digit(#[trigger] s@[k]),
        decreases s.len() - i,
    {
        let c = s[i];
        if !('0' <= c && c <= '9') {
            proof { assert(body[i - lo] == c); }
            return None;
        }
        let d: u64 = (c as u32 - 48) as u64;
        let ghost next = s@.subrange(lo as int, i as int + 1);
        proof {
            assert(next.drop_last() =~= s@.subrange(lo as int, i as int));
            assert(next.last() == c);
        }
        if d > limit || acc > (limit - d) / 10 {
            proof {
                assert(acc * 10 + d > limit) by (nonlinear_arith)
                    requires d > limit || acc > (limit - d) / 10, d <= 9;
                if all_digits(body) {
                    assert(next =~= body.take(i - lo + 1));
                    lemma_digits_mono(body, i - lo + 1);
                }
            }
            return None;
        }
        proof {
            assert(acc * 10 + d <= limit) by (nonlinear_arith)
                requires acc <= (limit - d) / 10, d <= limit;
        }
        acc = acc * 10 + d;
        i = i + 1;
    }
    proof {
        assert(s@.subrange(lo as int, s.len() as int) =~= body);
        assert forall|k: int| 0 <= k < body.len() implies is_digit(#[trigger] body[k]) by {
            assert(body[k] == s@[lo + k]);
        }
    }
    Some(acc)
}

/// `s.parse::<i64>()`.
pub fn parse_i64(s: &[char]) -> (r: Option<i64>)
    ensures
        r == spec_parse_i64(s@),
{
    let neg = s.len() > 0 && s[0] == '-';
    let lo: usize = if s.len() > 0 && (s[0] == '-' || s[0] == '+') { 1 } else { 0 };
    proof {
        if lo == 1 {
            assert(split_sign(s@).1 =~= s@.skip(1));
        } else {
            assert(split_sign(s@).1 =~= s@.skip(0));
        }
    }
    if lo == s.len() {
        return None;
    }
    let limit: u64 = 9223372036854775808;
    match digits_upto(s, lo, limit) {
        None => None,
        Some(v) => {
            if neg {
                if v == limit {
                    Some(i64::MIN)
                } else {
                    Some(-(v as i64))
                }
            } else if v > 9223372036854775807 {
                None
            } else {
                Some(v as i64)
            }
        }
    }
}

/// `s.parse()` for an unsigned integer type whose largest value is `max`.
pub fn parse_unsigned(s: &[char], max: u64) -> (r: Option<u64>)
    ensures
        match r {
            Some(v) => spec_parse_unsigned(s@, max as nat) == Some(v as nat),
            None => spec_parse_unsigned(s@, max as nat) is None,
        },
{
    let lo: usize = if s.len() > 0 && s[0] == '+' { 1 } else { 0 };
    proof {
        if lo == 1 {
            assert(s@.drop_first() =~= s@.skip(1));
        } else {
            assert(s@ =~= s@.skip(0));
        }
    }
    if lo == s.len() {
        return None;
    }
    digits_upto(s, lo, max)
}

/// `n` in decimal, with a leading `-` when negative.
pub open spec fn signed_decimal(n: int) -> Seq<char> {
    if n < 0 {
        seq!['-'] + decimal((-n) as nat)
    } else {
        decimal(n as nat)
    }
}

/// Appends `n` in decimal, as `format!("{n}")` writes an `i64`.
pub fn push_signed_decimal(s: &mut String, n: i64)
    ensures
        final(s)@ == old(s)@ + signed_decimal(n as int),
{
    if n < 0 {
        let ghost start = s@;
        push_char(s, '-');
        let m: u64 = ((-(n + 1)) as u64) + 1;
        push_decimal(s, m);
        proof {
            assert(m as int == -(n as int));
            assert(start.push('-') + decimal(m as nat) =~= start + (seq!['-'] + decimal(m as nat)));
        }
    } else {
        push_decimal(s, n as u64);
    }
}

/// Writing a number and reading it back gives the number.
pub proof fn lemma_parse_signed_decimal(n: i64)
    ensures
        spec_parse_i64(signed_decimal(n as int)) == Some(n),
{
    let s = signed_decimal(n as int);
    if n < 0 {
        lemma_decimal_value((-(n as int)) as nat);
        assert(s.drop_first() =~= decimal((-(n as int)) as nat));
        assert(s[0] == '-');
    } else {
        lemma_decimal_value(n as nat);
        let d = decimal(n as nat);
        assert(is_digit(d[0]));
    }
}

} // verus!
