//! The Unicode character properties the site's text rules lean on and that
//! take tables rather than a few lines to state, each answered by std.
use vstd::prelude::*;
use crate::text::is_ascii_alnum;

verus! {

/// An ASCII character.
pub open spec fn is_ascii(c: char) -> bool {
    (c as u32) < 128
}

/// An ASCII capital letter, `A` to `Z`.
pub open spec fn is_ascii_upper(c: char) -> bool {
    'A' <= c && c <= 'Z'
}

/// `c` with `A` to `Z` made `a` to `z`; any other character as it is.
pub open spec fn ascii_lower(c: char) -> char {
    if is_ascii_upper(c) { ((c as u32) + 32) as char } else { c }
}

/// Whether a character is Unicode alphabetic or numeric, as
/// `char::is_alphanumeric` answers it.
pub uninterp spec fn unicode_alphanumeric(c: char) -> bool;

/// `char::is_alphanumeric`. The contract names its answer, which depends on
/// the character alone. Of ASCII it says what std documents: the letters and
/// digits are alphanumeric, and no other ASCII character is. Which
/// characters beyond ASCII are is left to the name.
#[verifier::external_body]
pub(crate) fn is_alphanumeric(c: char) -> (b: bool)
    ensures
        b == unicode_alphanumeric(c),
        is_ascii(c) ==> (b == is_ascii_alnum(c)),
{
    c.is_alphanumeric()
}

/// The full Unicode lowercase mapping of a string, as `str::to_lowercase`
/// computes it.
pub uninterp spec fn unicode_lowercase(s: Seq<char>) -> Seq<char>;

/// `str::to_lowercase`. The contract names its result, a function of the
/// characters of `s` alone. Of ASCII it says what std documents: the result
/// holds no capital `A` to `Z`, and text that is all ASCII is lowercased
/// letter by letter, `A` to `Z` becoming `a` to `z` and nothing else
/// changing. How characters beyond ASCII map is left to the name.
#[verifier::external_body]
pub(crate) fn to_lowercase(s: &str) -> (r: String)
    ensures
        r@ == unicode_lowercase(s@),
        forall|j: int| 0 <= j < r@.len() ==> !is_ascii_upper(#[trigger] r@[j]),
        (forall|j: int| 0 <= j < s@.len() ==> is_ascii(#[trigger] s@[j]))
            ==> r@ == s@.map_values(|c: char| ascii_lower(c)),
{
    s.to_lowercase()
}

/// The full Unicode uppercase mapping of one character (one to three
/// characters), as `char::to_uppercase` yields it.
pub uninterp spec fn unicode_uppercase(c: char) -> Seq<char>;

/// `char::to_uppercase`, collected into a string. The contract names its
/// result, a function of the character alone, and says nothing about which
/// characters map where.
#[verifier::external_body]
pub(crate) fn to_uppercase(c: char) -> (r: String)
    ensures
        r@ == unicode_uppercase(c),
{
    c.to_uppercase().collect()
}

} // verus!
