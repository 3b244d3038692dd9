//! Exact duplicate detection by a SHA-256 of the decoded pixels, and the
//! perceptual hash that checks an edit is still recognisably the upload.
//!
//! Hashing decoded pixels rather than file bytes is what makes the exact
//! check useful: the same image re-saved in another format has different
//! bytes but identical pixels. Nothing here looks at what an image depicts.
use vstd::prelude::*;
use sha2::Digest;
use crate::raster::Rgba;
use crate::storage::{to_square, spec_square_data, CANVAS};
use crate::text::{push_hex_padded, zero_pad, hex, lemma_hex_chars, is_ascii_alnum, lemma_hex_len};

verus! {

/// The SHA-256 digest of some bytes.
pub uninterp spec fn sha256(data: Seq<u8>) -> Seq<u8>;

/// `sha2::Sha256::digest`: the 32-byte SHA-256 digest, named rather than
/// stated.
#[verifier::external_body]
pub(crate) fn sha256_digest(bytes: &[u8]) -> (r: Vec<u8>)
    ensures
        r@ == sha256(bytes@),
        r@.len() == 32,
{
    sha2::Sha256::digest(bytes).to_vec()
}

/// Bytes as lowercase hex, two digits each.
pub open spec fn hex_bytes(b: Seq<u8>) -> Seq<char>
    decreases b.len(),
{
    if b.len() == 0 {
        Seq::empty()
    } else {
        hex_bytes(b.drop_last()) + zero_pad(hex(b.last() as nat, false), 2)
    }
}

proof fn lemma_byte_hex(b: u8)
    ensures
        zero_pad(hex(b as nat, false), 2).len() == 2,
        forall|j: int| 0 <= j < 2 ==> is_ascii_alnum(#[trigger] zero_pad(hex(b as nat, false), 2)[j]),
{
    lemma_hex_len(b as nat, false);
    lemma_hex_chars(b as nat, false);
    let h = hex(b as nat, false);
    let z = zero_pad(h, 2);
    assert forall|j: int| 0 <= j < 2 implies is_ascii_alnum(#[trigger] z[j]) by {
        if h.len() < 2 {
            if j >= 2 - h.len() { assert(z[j] == h[j - (2 - h.len())]); }
        }
    }
}

pub proof fn lemma_hex_bytes(b: Seq<u8>)
    ensures
        hex_bytes(b).len() == 2 * b.len(),
        forall|j: int| 0 <= j < hex_bytes(b).len() ==> is_ascii_alnum(#[trigger] hex_bytes(b)[j]),
    decreases b.len(),
{
    if b.len() > 0 {
        lemma_hex_bytes(b.drop_last());
        lemma_byte_hex(b.last());
        let a = hex_bytes(b.drop_last());
        let z = zero_pad(hex(b.last() as nat, false), 2);
        assert forall|j: int| 0 <= j < (a + z).len() implies is_ascii_alnum(#[trigger] (a + z)[j]) by {
            if j >= a.len() { assert((a + z)[j] == z[j - a.len()]); }
        }
    }
}

/// Lowercase hex of some bytes.
pub fn hex_encode(bytes: &[u8]) -> (r: String)
    ensures
        r@ == hex_bytes(bytes@),
{
    let mut r = String::new();
    let mut i: usize = 0;
    while i < bytes.len()
        invariant
            i <= bytes.len(),
            r@ == hex_bytes(bytes@.take(i as int)),
        decreases bytes.len() - i,
    {
        push_hex_padded(&mut r, bytes[i] as u64, 2, false);
        proof { assert(bytes@.take(i as int + 1).drop_last() =~= bytes@.take(i as int)); }
        i = i + 1;
    }
    proof { assert(bytes@.take(bytes@.len() as int) =~= bytes@); }
    r
}

/// The SHA-256 of some bytes, as 64 lowercase hex digits.
pub fn sha256_hex(bytes: &[u8]) -> (r: String)
    ensures
        r@ == hex_bytes(sha256(bytes@)),
        r@.len() == 64,
        forall|j: int| 0 <= j < r@.len() ==> is_ascii_alnum(#[trigger] r@[j]),
{
    let d = sha256_digest(bytes);
    proof { lemma_hex_bytes(d@); }
    hex_encode(&d)
}

/// Set bits among the low `n` bits of `x`.
pub open spec fn popcount_upto(x: u64, n: nat) -> nat
    decreases n,
{
    if n == 0 {
        0
    } else {
        popcount_upto(x, (n - 1) as nat) + ((x >> ((n - 1) as u64)) & 1u64) as nat
    }
}

/// Differing bits between two 64-bit hashes.
pub open spec fn spec_hamming(a: u64, b: u64) -> nat {
    popcount_upto(a ^ b, 64)
}

/// Differing bits between two hashes: 0 identical, 64 maximally unalike.
pub fn hamming(a: u64, b: u64) -> (r: u32)
    ensures
        r as nat == spec_hamming(a, b),
        r <= 64,
{
    let x = a ^ b;
    let mut n: u32 = 0;
    let mut i: u64 = 0;
    while i < 64
        invariant
            i <= 64,
            x == a ^ b,
            n as nat == popcount_upto(x, i as nat),
            n <= i,
        decreases 64 - i,
    {
        let bit = (x >> i) & 1;
        assert(bit <= 1) by (bit_vector) requires bit == (x >> i) & 1u64;
        n = n + bit as u32;
        i = i + 1;
    }
    n
}

proof fn lemma_popcount_zero(n: nat)
    ensures
        popcount_upto(0u64, n) == 0,
    decreases n,
{
    if n > 0 {
        lemma_popcount_zero((n - 1) as nat);
        let k = (n - 1) as u64;
        assert((0u64 >> k) & 1u64 == 0u64) by (bit_vector);
    }
}

/// A hash is at distance zero from itself.
pub proof fn lemma_hamming_self(a: u64)
    ensures
        spec_hamming(a, a) == 0,
{
    assert(a ^ a == 0u64) by (bit_vector);
    lemma_popcount_zero(64);
}

/// Distance does not depend on the order of the two hashes.
pub proof fn lemma_hamming_symmetric(a: u64, b: u64)
    ensures
        spec_hamming(a, b) == spec_hamming(b, a),
{
    assert(a ^ b == b ^ a) by (bit_vector);
}

/// Two words whose 64 bits all agree are the same word.
proof fn lemma_bits_equal(x: u64, y: u64)
    by (bit_vector)
    requires
        (x >> 0u64) & 1u64 == (y >> 0u64) & 1u64,
        (x >> 1u64) & 1u64 == (y >> 1u64) & 1u64,
        (x >> 2u64) & 1u64 == (y >> 2u64) & 1u64,
        (x >> 3u64) & 1u64 == (y >> 3u64) & 1u64,
        (x >> 4u64) & 1u64 == (y >> 4u64) & 1u64,
        (x >> 5u64) & 1u64 == (y >> 5u64) & 1u64,
        (x >> 6u64) & 1u64 == (y >> 6u64) & 1u64,
        (x >> 7u64) & 1u64 == (y >> 7u64) & 1u64,
        (x >> 8u64) & 1u64 == (y >> 8u64) & 1u64,
        (x >> 9u64) & 1u64 == (y >> 9u64) & 1u64,
        (x >> 10u64) & 1u64 == (y >> 10u64) & 1u64,
        (x >> 11u64) & 1u64 == (y >> 11u64) & 1u64,
        (x >> 12u64) & 1u64 == (y >> 12u64) & 1u64,
        (x >> 13u64) & 1u64 == (y >> 13u64) & 1u64,
        (x >> 14u64) & 1u64 == (y >> 14u64) & 1u64,
        (x >> 15u64) & 1u64 == (y >> 15u64) & 1u64,
        (x >> 16u64) & 1u64 == (y >> 16u64) & 1u64,
        (x >> 17u64) & 1u64 == (y >> 17u64) & 1u64,
        (x >> 18u64) & 1u64 == (y >> 18u64) & 1u64,
        (x >> 19u64) & 1u64 == (y >> 19u64) & 1u64,
        (x >> 20u64) & 1u64 == (y >> 20u64) & 1u64,
        (x >> 21u64) & 1u64 == (y >> 21u64) & 1u64,
        (x >> 22u64) & 1u64 == (y >> 22u64) & 1u64,
        (x >> 23u64) & 1u64 == (y >> 23u64) & 1u64,
        (x >> 24u64) & 1u64 == (y >> 24u64) & 1u64,
        (x >> 25u64) & 1u64 == (y >> 25u64) & 1u64,
        (x >> 26u64) & 1u64 == (y >> 26u64) & 1u64,
        (x >> 27u64) & 1u64 == (y >> 27u64) & 1u64,
        (x >> 28u64) & 1u64 == (y >> 28u64) & 1u64,
        (x >> 29u64) & 1u64 == (y >> 29u64) & 1u64,
        (x >> 30u64) & 1u64 == (y >> 30u64) & 1u64,
        (x >> 31u64) & 1u64 == (y >> 31u64) & 1u64,
        (x >> 32u64) & 1u64 == (y >> 32u64) & 1u64,
        (x >> 33u64) & 1u64 == (y >> 33u64) & 1u64,
        (x >> 34u64) & 1u64 == (y >> 34u64) & 1u64,
        (x >> 35u64) & 1u64 == (y >> 35u64) & 1u64,
        (x >> 36u64) & 1u64 == (y >> 36u64) & 1u64,
        (x >> 37u64) & 1u64 == (y >> 37u64) & 1u64,
        (x >> 38u64) & 1u64 == (y >> 38u64) & 1u64,
        (x >> 39u64) & 1u64 == (y >> 39u64) & 1u64,
        (x >> 40u64) & 1u64 == (y >> 40u64) & 1u64,
        (x >> 41u64) & 1u64 == (y >> 41u64) & 1u64,
        (x >> 42u64) & 1u64 == (y >> 42u64) & 1u64,
        (x >> 43u64) & 1u64 == (y >> 43u64) & 1u64,
        (x >> 44u64) & 1u64 == (y >> 44u64) & 1u64,
        (x >> 45u64) & 1u64 == (y >> 45u64) & 1u64,
        (x >> 46u64) & 1u64 == (y >> 46u64) & 1u64,
        (x >> 47u64) & 1u64 == (y >> 47u64) & 1u64,
        (x >> 48u64) & 1u64 == (y >> 48u64) & 1u64,
        (x >> 49u64) & 1u64 == (y >> 49u64) & 1u64,
        (x >> 50u64) & 1u64 == (y >> 50u64) & 1u64,
        (x >> 51u64) & 1u64 == (y >> 51u64) & 1u64,
        (x >> 52u64) & 1u64 == (y >> 52u64) & 1u64,
        (x >> 53u64) & 1u64 == (y >> 53u64) & 1u64,
        (x >> 54u64) & 1u64 == (y >> 54u64) & 1u64,
        (x >> 55u64) & 1u64 == (y >> 55u64) & 1u64,
        (x >> 56u64) & 1u64 == (y >> 56u64) & 1u64,
        (x >> 57u64) & 1u64 == (y >> 57u64) & 1u64,
        (x >> 58u64) & 1u64 == (y >> 58u64) & 1u64,
        (x >> 59u64) & 1u64 == (y >> 59u64) & 1u64,
        (x >> 60u64) & 1u64 == (y >> 60u64) & 1u64,
        (x >> 61u64) & 1u64 == (y >> 61u64) & 1u64,
        (x >> 62u64) & 1u64 == (y >> 62u64) & 1u64,
        (x >> 63u64) & 1u64 == (y >> 63u64) & 1u64,
    ensures
        x == y,
{
}

/// Each bit of a word is 0 or 1, and every bit of zero is 0.
proof fn lemma_bit_facts()
    by (bit_vector)
    ensures
        forall|x: u64, b: u64| #[trigger] ((x >> b) & 1u64) <= 1u64,
        forall|b: u64| #[trigger] ((0u64 >> b) & 1u64) == 0u64,
{
}

/// Words agreeing on each of their 64 bits are equal.
proof fn lemma_same_bits(x: u64, y: u64)
    requires
        forall|b: u64| b < 64 ==> #[trigger] ((x >> b) & 1u64) == ((y >> b) & 1u64),
    ensures
        x == y,
{
    assert((x >> 0u64) & 1u64 == (y >> 0u64) & 1u64);
    assert((x >> 1u64) & 1u64 == (y >> 1u64) & 1u64);
    assert((x >> 2u64) & 1u64 == (y >> 2u64) & 1u64);
    assert((x >> 3u64) & 1u64 == (y >> 3u64) & 1u64);
    assert((x >> 4u64) & 1u64 == (y >> 4u64) & 1u64);
    assert((x >> 5u64) & 1u64 == (y >> 5u64) & 1u64);
    assert((x >> 6u64) & 1u64 == (y >> 6u64) & 1u64);
    assert((x >> 7u64) & 1u64 == (y >> 7u64) & 1u64);
    assert((x >> 8u64) & 1u64 == (y >> 8u64) & 1u64);
    assert((x >> 9u64) & 1u64 == (y >> 9u64) & 1u64);
    assert((x >> 10u64) & 1u64 == (y >> 10u64) & 1u64);
    assert((x >> 11u64) & 1u64 == (y >> 11u64) & 1u64);
    assert((x >> 12u64) & 1u64 == (y >> 12u64) & 1u64);
    assert((x >> 13u64) & 1u64 == (y >> 13u64) & 1u64);
    assert((x >> 14u64) & 1u64 == (y >> 14u64) & 1u64);
    assert((x >> 15u64) & 1u64 == (y >> 15u64) & 1u64);
    assert((x >> 16u64) & 1u64 == (y >> 16u64) & 1u64);
    assert((x >> 17u64) & 1u64 == (y >> 17u64) & 1u64);
    assert((x >> 18u64) & 1u64 == (y >> 18u64) & 1u64);
    assert((x >> 19u64) & 1u64 == (y >> 19u64) & 1u64);
    assert((x >> 20u64) & 1u64 == (y >> 20u64) & 1u64);
    assert((x >> 21u64) & 1u64 == (y >> 21u64) & 1u64);
    assert((x >> 22u64) & 1u64 == (y >> 22u64) & 1u64);
    assert((x >> 23u64) & 1u64 == (y >> 23u64) & 1u64);
    assert((x >> 24u64) & 1u64 == (y >> 24u64) & 1u64);
    assert((x >> 25u64) & 1u64 == (y >> 25u64) & 1u64);
    assert((x >> 26u64) & 1u64 == (y >> 26u64) & 1u64);
    assert((x >> 27u64) & 1u64 == (y >> 27u64) & 1u64);
    assert((x >> 28u64) & 1u64 == (y >> 28u64) & 1u64);
    assert((x >> 29u64) & 1u64 == (y >> 29u64) & 1u64);
    assert((x >> 30u64) & 1u64 == (y >> 30u64) & 1u64);
    assert((x >> 31u64) & 1u64 == (y >> 31u64) & 1u64);
    assert((x >> 32u64) & 1u64 == (y >> 32u64) & 1u64);
    assert((x >> 33u64) & 1u64 == (y >> 33u64) & 1u64);
    assert((x >> 34u64) & 1u64 == (y >> 34u64) & 1u64);
    assert((x >> 35u64) & 1u64 == (y >> 35u64) & 1u64);
    assert((x >> 36u64) & 1u64 == (y >> 36u64) & 1u64);
    assert((x >> 37u64) & 1u64 == (y >> 37u64) & 1u64);
    assert((x >> 38u64) & 1u64 == (y >> 38u64) & 1u64);
    assert((x >> 39u64) & 1u64 == (y >> 39u64) & 1u64);
    assert((x >> 40u64) & 1u64 == (y >> 40u64) & 1u64);
    assert((x >> 41u64) & 1u64 == (y >> 41u64) & 1u64);
    assert((x >> 42u64) & 1u64 == (y >> 42u64) & 1u64);
    assert((x >> 43u64) & 1u64 == (y >> 43u64) & 1u64);
    assert((x >> 44u64) & 1u64 == (y >> 44u64) & 1u64);
    assert((x >> 45u64) & 1u64 == (y >> 45u64) & 1u64);
    assert((x >> 46u64) & 1u64 == (y >> 46u64) & 1u64);
    assert((x >> 47u64) & 1u64 == (y >> 47u64) & 1u64);
    assert((x >> 48u64) & 1u64 == (y >> 48u64) & 1u64);
    assert((x >> 49u64) & 1u64 == (y >> 49u64) & 1u64);
    assert((x >> 50u64) & 1u64 == (y >> 50u64) & 1u64);
    assert((x >> 51u64) & 1u64 == (y >> 51u64) & 1u64);
    assert((x >> 52u64) & 1u64 == (y >> 52u64) & 1u64);
    assert((x >> 53u64) & 1u64 == (y >> 53u64) & 1u64);
    assert((x >> 54u64) & 1u64 == (y >> 54u64) & 1u64);
    assert((x >> 55u64) & 1u64 == (y >> 55u64) & 1u64);
    assert((x >> 56u64) & 1u64 == (y >> 56u64) & 1u64);
    assert((x >> 57u64) & 1u64 == (y >> 57u64) & 1u64);
    assert((x >> 58u64) & 1u64 == (y >> 58u64) & 1u64);
    assert((x >> 59u64) & 1u64 == (y >> 59u64) & 1u64);
    assert((x >> 60u64) & 1u64 == (y >> 60u64) & 1u64);
    assert((x >> 61u64) & 1u64 == (y >> 61u64) & 1u64);
    assert((x >> 62u64) & 1u64 == (y >> 62u64) & 1u64);
    assert((x >> 63u64) & 1u64 == (y >> 63u64) & 1u64);
    lemma_bits_equal(x, y);
}

proof fn lemma_popcount_zero_bits(x: u64, n: nat)
    requires
        popcount_upto(x, n) == 0,
    ensures
        forall|k: u64| k < n ==> #[trigger] ((x >> k) & 1u64) == 0u64,
    decreases n,
{
    if n > 0 {
        lemma_popcount_zero_bits(x, (n - 1) as nat);
    }
}

/// Distance zero means the same hash.
pub proof fn lemma_hamming_zero_is_equal(a: u64, b: u64)
    ensures
        spec_hamming(a, b) == 0 <==> a == b,
{
    if spec_hamming(a, b) == 0 {
        lemma_popcount_zero_bits(a ^ b, 64);
        lemma_bit_facts();
        lemma_same_bits(a ^ b, 0u64);
        assert(a ^ b == 0u64 ==> a == b) by (bit_vector);
    }
    if a == b {
        lemma_hamming_self(a);
    }
}

proof fn lemma_xor_bit(a: u64, b: u64, c: u64, k: u64)
    by (bit_vector)
    requires
        k < 64,
    ensures
        (((a ^ c) >> k) & 1u64) <= (((a ^ b) >> k) & 1u64) + (((b ^ c) >> k) & 1u64),
{
}

proof fn lemma_popcount_triangle(a: u64, b: u64, c: u64, n: nat)
    requires
        n <= 64,
    ensures
        popcount_upto(a ^ c, n) <= popcount_upto(a ^ b, n) + popcount_upto(b ^ c, n),
    decreases n,
{
    if n > 0 {
        lemma_popcount_triangle(a, b, c, (n - 1) as nat);
        lemma_xor_bit(a, b, c, (n - 1) as u64);
    }
}

/// Distance obeys the triangle inequality: going through a third hash is
/// never shorter.
pub proof fn lemma_hamming_triangle(a: u64, b: u64, c: u64)
    ensures
        spec_hamming(a, c) <= spec_hamming(a, b) + spec_hamming(b, c),
{
    lemma_popcount_triangle(a, b, c, 64);
}

/// Rows and columns of the difference-hash sample.
pub const DHASH_W: u32 = 9;
pub const DHASH_H: u32 = 8;

/// Image pixels resized with the triangle filter to `nw` by `nh` and
/// converted to 8-bit luma, as `DynamicImage::resize_exact` followed by
/// `to_luma8` computes them.
pub uninterp spec fn triangle_luma(width: u32, height: u32, data: Seq<u8>, nw: u32, nh: u32) -> Seq<u8>;

/// `DynamicImage::resize_exact` with `FilterType::Triangle`, then
/// `to_luma8`. The result has one byte per pixel of the new size; its values
/// are named, not stated.
#[verifier::external_body]
pub(crate) fn luma_sample(img: &Rgba, nw: u32, nh: u32) -> (r: Vec<u8>)
    requires
        img.wf(),
    ensures
        r@ == triangle_luma(img.width, img.height, img.data@, nw, nh),
        r@.len() == nw as int * nh as int,
{
    let src = image::RgbaImage::from_raw(img.width, img.height, img.data.clone()).unwrap();
    let small = image::DynamicImage::ImageRgba8(src).resize_exact(nw, nh, image::imageops::FilterType::Triangle);
    small.to_luma8().into_raw()
}

/// Bit `b` of a difference hash: is this sample brighter than the one to
/// its right?
pub open spec fn dhash_bit(luma: Seq<u8>, b: int) -> bool {
    let y = b / 8;
    let x = b % 8;
    luma[y * 9 + x] > luma[y * 9 + x + 1]
}

/// Whether `h` is the difference hash of a 9x8 luma sample.
pub open spec fn is_dhash(luma: Seq<u8>, h: u64) -> bool {
    forall|b: u64| b < 64 ==> (((h >> b) & 1u64) == 1u64) == #[trigger] dhash_bit(luma, b as int)
}

/// A luma sample has exactly one difference hash.
pub proof fn lemma_dhash_is_unique(luma: Seq<u8>, h1: u64, h2: u64)
    requires
        is_dhash(luma, h1),
        is_dhash(luma, h2),
    ensures
        h1 == h2,
{
    lemma_bit_facts();
    assert forall|b: u64| b < 64 implies #[trigger] ((h1 >> b) & 1u64) == ((h2 >> b) & 1u64) by {
        let p = dhash_bit(luma, b as int);
        assert((((h1 >> b) & 1u64) == 1u64) == p);
        assert((((h2 >> b) & 1u64) == 1u64) == p);
        assert(((h1 >> b) & 1u64) <= 1u64);
        assert(((h2 >> b) & 1u64) <= 1u64);
    }
    lemma_same_bits(h1, h2);
}

proof fn lemma_set_bit(h: u64, bit: u64, b: u64)
    requires
        bit < 64,
        b < 64,
    ensures
        ((h | (1u64 << bit)) >> b) & 1u64 == (if b == bit { 1u64 } else { (h >> b) & 1u64 }),
{
    assert(((h | (1u64 << bit)) >> b) & 1u64 == (if b == bit { 1u64 } else { (h >> b) & 1u64 })) by (bit_vector)
        requires bit < 64, b < 64;
}

/// The 64-bit difference hash of a 9x8 luma sample: bit `8y + x` is set
/// when sample `(x, y)` is brighter than `(x + 1, y)`.
pub fn dhash_of_sample(luma: &[u8]) -> (r: u64)
    requires
        luma@.len() == 72,
    ensures
        is_dhash(luma@, r),
{
    let mut hash: u64 = 0;
    let mut bit: u64 = 0;
    let mut y: usize = 0;
    proof {
        assert forall|b: u64| 0 <= b < 64 implies #[trigger] ((0u64 >> b) & 1u64) == 0u64 by {
            assert((0u64 >> b) & 1u64 == 0u64) by (bit_vector);
        }
    }
    while y < 8
        invariant
            luma@.len() == 72,
            y <= 8,
            bit == 8 * y,
            forall|b: u64| b < bit ==> (((hash >> b) & 1u64) == 1u64) == #[trigger] dhash_bit(luma@, b as int),
            forall|b: u64| bit <= b < 64 ==> #[trigger] ((hash >> b) & 1u64) == 0u64,
        decreases 8 - y,
    {
        let mut x: usize = 0;
        while x < 8
            invariant
                luma@.len() == 72,
                y < 8,
                x <= 8,
                bit == 8 * y + x,
                forall|b: u64| b < bit ==> (((hash >> b) & 1u64) == 1u64) == #[trigger] dhash_bit(luma@, b as int),
                forall|b: u64| bit <= b < 64 ==> #[trigger] ((hash >> b) & 1u64) == 0u64,
            decreases 8 - x,
        {
            let brighter = luma[y * 9 + x] > luma[y * 9 + x + 1];
            proof {
                assert((bit as int) / 8 == y as int && (bit as int) % 8 == x as int) by (nonlinear_arith)
                    requires bit == 8 * y + x, x < 8;
                assert(brighter == dhash_bit(luma@, bit as int));
            }
            let old_hash = hash;
            if brighter {
                hash = hash | (1u64 << bit);
                proof {
                    assert forall|b: u64| b < 64 implies ((hash >> b) & 1u64) == (if b == bit { 1u64 } else { (old_hash >> b) & 1u64 }) by {
                        lemma_set_bit(old_hash, bit, b);
                    }
                }
            }
            proof {
                assert forall|b: u64| b < bit + 1 implies (((hash >> b) & 1u64) == 1u64) == #[trigger] dhash_bit(luma@, b as int) by {
                    if b == bit {
                        if !brighter {
                            assert((old_hash >> b) & 1u64 == 0u64);
                        }
                    }
                }
                assert forall|b: u64| bit + 1 <= b < 64 implies #[trigger] ((hash >> b) & 1u64) == 0u64 by {
                    assert((old_hash >> b) & 1u64 == 0u64);
                }
            }
            bit = bit + 1;
            x = x + 1;
        }
        y = y + 1;
    }
    hash
}

/// The difference hash of an image, sampled at 9x8.
pub fn dhash(img: &Rgba) -> (r: u64)
    requires
        img.wf(),
    ensures
        is_dhash(triangle_luma(img.width, img.height, img.data@, DHASH_W, DHASH_H), r),
{
    let small = luma_sample(img, DHASH_W, DHASH_H);
    dhash_of_sample(&small)
}

/// How far an edit may move the hash before it counts as a different
/// picture: 16 of 64 bits, deliberately loose.
pub const MAX_EDIT_DISTANCE: u32 = 16;

/// Whether `edited` is plausibly an edit of `original` rather than a new
/// picture, comparing both as canvas squares.
pub fn is_plausible_edit(original: &Rgba, edited: &Rgba) -> (r: bool)
    requires
        original.wf(),
        edited.wf(),
    ensures
        exists|ha: u64, hb: u64| {
            &&& is_dhash(triangle_luma(CANVAS, CANVAS, spec_square_data(*original), DHASH_W, DHASH_H), ha)
            &&& is_dhash(triangle_luma(CANVAS, CANVAS, spec_square_data(*edited), DHASH_W, DHASH_H), hb)
            &&& r == (spec_hamming(ha, hb) <= MAX_EDIT_DISTANCE)
        },
        spec_square_data(*original) == spec_square_data(*edited) ==> r,
{
    let a = to_square(original);
    let b = to_square(edited);
    let ha = dhash(&a);
    let hb = dhash(&b);
    let d = hamming(ha, hb);
    proof {
        if spec_square_data(*original) == spec_square_data(*edited) {
            lemma_dhash_is_unique(triangle_luma(CANVAS, CANVAS, spec_square_data(*original), DHASH_W, DHASH_H), ha, hb);
            lemma_hamming_self(ha);
        }
    }
    d <= MAX_EDIT_DISTANCE
}

} // verus!
