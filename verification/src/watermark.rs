//! An invisible provenance watermark: a 32-bit big-endian length, then the
//! payload, written most significant bit first into the low bit of each RGBA
//! channel byte.
//!
//! Lossless formats preserve it exactly; a lossy re-compression or a resize
//! does not, which is the expected trade for a mark that must not be visible.
//! This is marking for provenance, not DRM.
use vstd::prelude::*;
use crate::raster::{Rgba, copy_bytes, sub_bytes};

verus! {

/// Bits used by the length prefix ahead of the payload.
pub const LENGTH_BITS: usize = 32;

/// Bit `i` of `bytes`, most significant bit of each byte first.
pub open spec fn bit_at(bytes: Seq<u8>, i: int) -> u8 {
    (bytes[i / 8] >> ((7 - i % 8) as u8)) & 1u8
}

/// The bits of `bytes`, eight per byte, most significant first.
pub open spec fn bits_of(bytes: Seq<u8>) -> Seq<u8> {
    Seq::new(bytes.len() * 8, |i: int| bit_at(bytes, i))
}

/// Folds bits (low bit of each entry) into a byte, first bit most
/// significant, shifting out anything beyond eight.
pub open spec fn fold_bits(bits: Seq<u8>) -> u8
    decreases bits.len(),
{
    if bits.len() == 0 {
        0u8
    } else {
        ((fold_bits(bits.drop_last()) << 1u8) | (bits.last() & 1u8)) as u8
    }
}

/// `bits` in groups of eight (the last group may be shorter), each folded
/// into one byte.
pub open spec fn spec_bits_to_bytes(bits: Seq<u8>) -> Seq<u8> {
    Seq::new(
        ((bits.len() + 7) / 8) as nat,
        |j: int| fold_bits(bits.subrange(8 * j, if 8 * j + 8 <= bits.len() { 8 * j + 8 } else { bits.len() as int })),
    )
}

/// `n` as four big-endian bytes.
pub open spec fn be32(n: u32) -> Seq<u8> {
    seq![(n >> 24u32) as u8, (n >> 16u32) as u8, (n >> 8u32) as u8, n as u8]
}

/// Four big-endian bytes as a number.
pub open spec fn from_be32(b: Seq<u8>) -> u32 {
    (((b[0] as u32) << 24u32) | ((b[1] as u32) << 16u32) | ((b[2] as u32) << 8u32) | (b[3] as u32)) as u32
}

/// The bit stream written into an image for `payload`: its length, then it.
pub open spec fn stream(payload: Seq<u8>) -> Seq<u8> {
    bits_of(be32(payload.len() as u32)) + bits_of(payload)
}

/// Whether a payload fits: every bit needs one channel byte.
pub open spec fn fits(capacity: nat, payload_len: nat) -> bool {
    32 + 8 * payload_len <= capacity
}

/// `b` with its low bit replaced by `bit`.
pub open spec fn with_low_bit(b: u8, bit: u8) -> u8 {
    ((b & 0xfeu8) | bit) as u8
}

/// What `embed` does to the channel bytes.
pub open spec fn spec_embed(data: Seq<u8>, payload: Seq<u8>) -> Seq<u8> {
    if fits(data.len(), payload.len()) {
        let s = stream(payload);
        Seq::new(data.len(), |i: int| if i < s.len() { with_low_bit(data[i], s[i]) } else { data[i] })
    } else {
        data
    }
}

/// What `extract` reads back from channel bytes.
pub open spec fn spec_extract(data: Seq<u8>) -> Option<Seq<u8>> {
    if data.len() < 32 {
        None
    } else {
        let len = from_be32(spec_bits_to_bytes(data.subrange(0, 32)));
        if 32 + 8 * (len as nat) > data.len() {
            None
        } else {
            Some(spec_bits_to_bytes(data.subrange(32, 32 + 8 * len)))
        }
    }
}

/// The bits of `bytes`, most significant first, one per entry.
pub fn bit_iter(bytes: &[u8]) -> (r: Vec<u8>)
    ensures
        r@ == bits_of(bytes@),
{
    let mut r: Vec<u8> = Vec::new();
    let mut k: usize = 0;
    while k < bytes.len()
        invariant
            k <= bytes.len(),
            r@.len() == 8 * k,
            forall|i: int| 0 <= i < 8 * k ==> r@[i] == bit_at(bytes@, i),
        decreases bytes.len() - k,
    {
        let b = bytes[k];
        let mut j: u8 = 0;
        while j < 8
            invariant
                k < bytes.len(),
                b == bytes@[k as int],
                j <= 8,
                r@.len() == 8 * k + j,
                forall|i: int| 0 <= i < 8 * k + j ==> r@[i] == bit_at(bytes@, i),
            decreases 8 - j,
        {
            r.push((b >> (7 - j)) & 1);
            proof {
                let i = 8 * k + j;
                assert(i / 8 == k as int && i % 8 == j as int) by (nonlinear_arith)
                    requires i == 8 * k + j, j < 8;
            }
            j = j + 1;
        }
        k = k + 1;
    }
    proof { assert(r@ =~= bits_of(bytes@)); }
    r
}

/// Eight bits, folded, starting from an accumulator `acc`.
fn fold8(bits: &[u8], lo: usize, hi: usize) -> (r: u8)
    requires
        lo <= hi <= bits.len(),
    ensures
        r == fold_bits(bits@.subrange(lo as int, hi as int)),
{
    let mut acc: u8 = 0;
    let mut i = lo;
    while i < hi
        invariant
            lo <= i <= hi <= bits.len(),
            acc == fold_bits(bits@.subrange(lo as int, i as int)),
        decreases hi - i,
    {
        proof {
            let s = bits@.subrange(lo as int, i as int + 1);
            assert(s.drop_last() =~= bits@.subrange(lo as int, i as int));
            assert(s.last() == bits@[i as int]);
        }
        acc = (acc << 1) | (bits[i] & 1);
        i = i + 1;
    }
    acc
}

/// Groups of eight bits (the last possibly shorter), each folded into a
/// byte.
pub fn bits_to_bytes(bits: &[u8]) -> (r: Vec<u8>)
    ensures
        r@ == spec_bits_to_bytes(bits@),
{
    let n = bits.len();
    let count = n / 8 + if n % 8 == 0 { 0 } else { 1 };
    proof {
        assert(count as int == (n as int + 7) / 8) by (nonlinear_arith)
            requires count as int == n as int / 8 + if n as int % 8 == 0 { 0int } else { 1int }, n >= 0;
    }
    let mut r: Vec<u8> = Vec::new();
    let mut j: usize = 0;
    while j < count
        invariant
            n == bits@.len(),
            count as int == (n as int + 7) / 8,
            j <= count,
            r@.len() == j,
            forall|k: int| 0 <= k < j ==> r@[k] == fold_bits(bits@.subrange(8 * k,
                if 8 * k + 8 <= n { 8 * k + 8 } else { n as int })),
        decreases count - j,
    {
        proof {
            assert(8 * j < n) by (nonlinear_arith)
                requires j < count, count as int == (n as int + 7) / 8;
        }
        let lo = 8 * j;
        let hi = if n - lo >= 8 { lo + 8 } else { n };
        let b = fold8(bits, lo, hi);
        r.push(b);
        j = j + 1;
    }
    proof { assert(r@ =~= spec_bits_to_bytes(bits@)); }
    r
}

/// `n` as four big-endian bytes, as `u32::to_be_bytes`.
fn be_bytes(n: u32) -> (r: Vec<u8>)
    ensures
        r@ == be32(n),
{
    let mut r: Vec<u8> = Vec::new();
    r.push((n >> 24) as u8);
    r.push((n >> 16) as u8);
    r.push((n >> 8) as u8);
    r.push(n as u8);
    proof { assert(r@ =~= be32(n)); }
    r
}

/// Four big-endian bytes as a number, as `u32::from_be_bytes`.
fn from_be(b: &[u8]) -> (r: u32)
    requires
        b@.len() == 4,
    ensures
        r == from_be32(b@),
{
    ((b[0] as u32) << 24) | ((b[1] as u32) << 16) | ((b[2] as u32) << 8) | (b[3] as u32)
}

/// Writes `payload` into the low bit of every channel byte, after a 32-bit
/// big-endian length. An image with too few channel bytes to carry it comes
/// back unchanged: skipping the mark beats failing an otherwise good upload.
pub fn embed(img: &Rgba, payload: &[u8]) -> (r: Rgba)
    ensures
        r.width == img.width,
        r.height == img.height,
        r.data@ == spec_embed(img.data@, payload@),
{
    let cap = img.data.len();
    if cap < 32 || payload.len() > (cap - 32) / 8 {
        proof {
            if cap >= 32 {
                assert(!fits(cap as nat, payload@.len())) by (nonlinear_arith)
                    requires cap >= 32, payload@.len() > (cap - 32) / 8;
            }
        }
        return Rgba { width: img.width, height: img.height, data: copy_bytes(&img.data) };
    }
    proof {
        assert(fits(cap as nat, payload@.len())) by (nonlinear_arith)
            requires cap >= 32, payload@.len() <= (cap - 32) / 8;
    }
    let lb = be_bytes(payload.len() as u32);
    let mut s = bit_iter(&lb);
    let mut p = bit_iter(payload);
    s.append(&mut p);
    let ghost st = stream(payload@);
    assert(s@ =~= st);
    let mut data = copy_bytes(&img.data);
    let mut i: usize = 0;
    while i < s.len()
        invariant
            s@ == st,
            s@.len() <= cap,
            data@.len() == cap,
            cap == img.data@.len(),
            i <= s@.len(),
            forall|k: int| 0 <= k < i ==> data@[k] == with_low_bit(img.data@[k], st[k]),
            forall|k: int| i <= k < cap ==> data@[k] == img.data@[k],
        decreases s.len() - i,
    {
        let v = (data[i] & 0xfe) | s[i];
        data.set(i, v);
        i = i + 1;
    }
    proof { assert(data@ =~= spec_embed(img.data@, payload@)); }
    Rgba { width: img.width, height: img.height, data }
}

/// Reads back what `embed` wrote. `None` when the recorded length could not
/// fit in this image: a strong sign it was never marked.
pub fn extract(img: &Rgba) -> (r: Option<Vec<u8>>)
    ensures
        match r {
            Some(v) => spec_extract(img.data@) == Some(v@),
            None => spec_extract(img.data@) is None,
        },
{
    let bytes = &img.data;
    if bytes.len() < 32 {
        return None;
    }
    let head = sub_bytes(bytes, 0, 32);
    let lb = bits_to_bytes(&head);
    let len = from_be(&lb) as usize;
    if len > (bytes.len() - 32) / 8 {
        proof {
            assert(32 + 8 * (len as nat) > bytes@.len()) by (nonlinear_arith)
                requires len > (bytes@.len() - 32) / 8, bytes@.len() >= 32;
        }
        return None;
    }
    proof {
        assert(32 + 8 * (len as nat) <= bytes@.len()) by (nonlinear_arith)
            requires len <= (bytes@.len() - 32) / 8, bytes@.len() >= 32;
    }
    let body = sub_bytes(bytes, 32, 32 + 8 * len);
    Some(bits_to_bytes(&body))
}

/// A folded byte only reads the low bit of each entry.
proof fn lemma_fold_low_bits(a: Seq<u8>, b: Seq<u8>)
    requires
        a.len() == b.len(),
        forall|i: int| 0 <= i < a.len() ==> a[i] & 1u8 == b[i] & 1u8,
    ensures
        fold_bits(a) == fold_bits(b),
    decreases a.len(),
{
    if a.len() > 0 {
        lemma_fold_low_bits(a.drop_last(), b.drop_last());
        assert(a.last() & 1u8 == b.last() & 1u8);
    }
}

/// Folding the eight bits of a byte gives the byte back.
proof fn lemma_fold_byte(x: u8, s: Seq<u8>)
    requires
        s.len() == 8,
        forall|i: int| 0 <= i < 8 ==> s[i] & 1u8 == (x >> ((7 - i) as u8)) & 1u8,
    ensures
        fold_bits(s) == x,
{
    let s7 = s.drop_last();
    let s6 = s7.drop_last();
    let s5 = s6.drop_last();
    let s4 = s5.drop_last();
    let s3 = s4.drop_last();
    let s2 = s3.drop_last();
    let s1 = s2.drop_last();
    let s0 = s1.drop_last();
    assert(s0.len() == 0);
    let (b0, b1, b2, b3, b4, b5, b6, b7) = (s[0], s[1], s[2], s[3], s[4], s[5], s[6], s[7]);
    assert(fold_bits(s0) == 0u8);
    assert(s1.last() == b0 && s2.last() == b1 && s3.last() == b2 && s4.last() == b3);
    assert(s5.last() == b4 && s6.last() == b5 && s7.last() == b6 && s.last() == b7);
    let a1 = fold_bits(s1);
    let a2 = fold_bits(s2);
    let a3 = fold_bits(s3);
    let a4 = fold_bits(s4);
    let a5 = fold_bits(s5);
    let a6 = fold_bits(s6);
    let a7 = fold_bits(s7);
    let a8 = fold_bits(s);
    assert(a1 == ((0u8 << 1u8) | (b0 & 1u8)) as u8);
    assert(a2 == ((a1 << 1u8) | (b1 & 1u8)) as u8);
    assert(a3 == ((a2 << 1u8) | (b2 & 1u8)) as u8);
    assert(a4 == ((a3 << 1u8) | (b3 & 1u8)) as u8);
    assert(a5 == ((a4 << 1u8) | (b4 & 1u8)) as u8);
    assert(a6 == ((a5 << 1u8) | (b5 & 1u8)) as u8);
    assert(a7 == ((a6 << 1u8) | (b6 & 1u8)) as u8);
    assert(a8 == ((a7 << 1u8) | (b7 & 1u8)) as u8);
    assert(b0 & 1u8 == (x >> 7u8) & 1u8);
    assert(b1 & 1u8 == (x >> 6u8) & 1u8);
    assert(b2 & 1u8 == (x >> 5u8) & 1u8);
    assert(b3 & 1u8 == (x >> 4u8) & 1u8);
    assert(b4 & 1u8 == (x >> 3u8) & 1u8);
    assert(b5 & 1u8 == (x >> 2u8) & 1u8);
    assert(b6 & 1u8 == (x >> 1u8) & 1u8);
    assert(b7 & 1u8 == (x >> 0u8) & 1u8);
    assert(a8 == x) by (bit_vector)
        requires
            a1 == ((0u8 << 1u8) | (b0 & 1u8)) as u8,
            a2 == ((a1 << 1u8) | (b1 & 1u8)) as u8,
            a3 == ((a2 << 1u8) | (b2 & 1u8)) as u8,
            a4 == ((a3 << 1u8) | (b3 & 1u8)) as u8,
            a5 == ((a4 << 1u8) | (b4 & 1u8)) as u8,
            a6 == ((a5 << 1u8) | (b5 & 1u8)) as u8,
            a7 == ((a6 << 1u8) | (b6 & 1u8)) as u8,
            a8 == ((a7 << 1u8) | (b7 & 1u8)) as u8,
            b0 & 1u8 == (x >> 7u8) & 1u8, b1 & 1u8 == (x >> 6u8) & 1u8,
            b2 & 1u8 == (x >> 5u8) & 1u8, b3 & 1u8 == (x >> 4u8) & 1u8,
            b4 & 1u8 == (x >> 3u8) & 1u8, b5 & 1u8 == (x >> 2u8) & 1u8,
            b6 & 1u8 == (x >> 1u8) & 1u8, b7 & 1u8 == (x >> 0u8) & 1u8;
}

/// Channel bytes whose low bits spell out the bits of `bytes` decode to
/// exactly `bytes`.
proof fn lemma_decode_bits(e: Seq<u8>, bytes: Seq<u8>)
    requires
        e.len() == 8 * bytes.len(),
        forall|i: int| 0 <= i < e.len() ==> #[trigger] e[i] & 1u8 == bit_at(bytes, i),
    ensures
        spec_bits_to_bytes(e) == bytes,
{
    let r = spec_bits_to_bytes(e);
    assert(r.len() == bytes.len()) by (nonlinear_arith)
        requires r.len() == (e.len() + 7) / 8, e.len() == 8 * bytes.len();
    assert forall|j: int| 0 <= j < bytes.len() implies r[j] == bytes[j] by {
        assert(8 * j + 8 <= e.len()) by (nonlinear_arith)
            requires 0 <= j < bytes.len(), e.len() == 8 * bytes.len();
        let c = e.subrange(8 * j, 8 * j + 8);
        assert forall|i: int| 0 <= i < 8 implies c[i] & 1u8 == (bytes[j] >> ((7 - i) as u8)) & 1u8 by {
            let k = 8 * j + i;
            assert(c[i] == e[k]);
            assert(k / 8 == j && k % 8 == i) by (nonlinear_arith)
                requires k == 8 * j + i, 0 <= i < 8;
        }
        lemma_fold_byte(bytes[j], c);
    }
    assert(r =~= bytes);
}

proof fn lemma_low_bit(b: u8, bit: u8)
    requires
        bit <= 1,
    ensures
        with_low_bit(b, bit) & 1u8 == bit,
        (with_low_bit(b, bit) as int - b as int) <= 1,
        (b as int - with_low_bit(b, bit) as int) <= 1,
{
    assert(((b & 0xfeu8) | bit) as u8 & 1u8 == bit) by (bit_vector) requires bit <= 1;
    assert(((b & 0xfeu8) | bit) as u8 <= b + 1 && b <= ((b & 0xfeu8) | bit) as u8 + 1)
        by (bit_vector) requires bit <= 1;
}

proof fn lemma_bit_at_bit(bytes: Seq<u8>, i: int)
    requires
        0 <= i < bytes.len() * 8,
    ensures
        bit_at(bytes, i) <= 1,
{
    let x = bytes[i / 8];
    let k = (7 - i % 8) as u8;
    assert((x >> k) & 1u8 <= 1) by (bit_vector);
}

proof fn lemma_be32(n: u32)
    ensures
        from_be32(be32(n)) == n,
{
    assert((((((n >> 24u32) as u8) as u32) << 24u32) | ((((n >> 16u32) as u8) as u32) << 16u32)
        | ((((n >> 8u32) as u8) as u32) << 8u32) | ((n as u8) as u32)) as u32 == n) by (bit_vector);
}

/// Reading back a mark gives exactly the payload that was written, whenever
/// it fit and its length is representable in the 32-bit prefix.
pub proof fn lemma_extract_after_embed(data: Seq<u8>, payload: Seq<u8>)
    requires
        fits(data.len(), payload.len()),
        payload.len() <= u32::MAX,
    ensures
        spec_extract(spec_embed(data, payload)) == Some(payload),
{
    let e = spec_embed(data, payload);
    let s = stream(payload);
    let lb = be32(payload.len() as u32);
    assert(s.len() == 32 + 8 * payload.len());
    assert forall|i: int| 0 <= i < s.len() implies #[trigger] e[i] & 1u8 == s[i] by {
        if i < 32 {
            lemma_bit_at_bit(lb, i);
        } else {
            lemma_bit_at_bit(payload, i - 32);
        }
        lemma_low_bit(data[i], s[i]);
    }
    let head = e.subrange(0, 32);
    assert forall|i: int| 0 <= i < head.len() implies #[trigger] head[i] & 1u8 == bit_at(lb, i) by {
        assert(head[i] == e[i]);
        assert(s[i] == bit_at(lb, i));
    }
    lemma_decode_bits(head, lb);
    lemma_be32(payload.len() as u32);
    let len = from_be32(spec_bits_to_bytes(head));
    assert(len as nat == payload.len());
    let body = e.subrange(32, 32 + 8 * len);
    assert forall|i: int| 0 <= i < body.len() implies #[trigger] body[i] & 1u8 == bit_at(payload, i) by {
        assert(body[i] == e[32 + i]);
        assert(s[32 + i] == bits_of(payload)[i]);
    }
    lemma_decode_bits(body, payload);
}

/// The mark is invisible: no channel byte moves by more than one, and the
/// buffer keeps its length.
pub proof fn lemma_embed_is_invisible(data: Seq<u8>, payload: Seq<u8>)
    ensures
        spec_embed(data, payload).len() == data.len(),
        forall|i: int| 0 <= i < data.len() ==> {
            &&& spec_embed(data, payload)[i] as int - data[i] as int <= 1
            &&& data[i] as int - spec_embed(data, payload)[i] as int <= 1
        },
{
    if fits(data.len(), payload.len()) {
        let s = stream(payload);
        let lb = be32(payload.len() as u32);
        assert forall|i: int| 0 <= i < data.len() implies {
            &&& spec_embed(data, payload)[i] as int - data[i] as int <= 1
            &&& data[i] as int - spec_embed(data, payload)[i] as int <= 1
        } by {
            if i < s.len() {
                if i < 32 {
                    lemma_bit_at_bit(lb, i);
                } else {
                    lemma_bit_at_bit(payload, i - 32);
                }
                lemma_low_bit(data[i], s[i]);
            }
        }
    }
}

/// An image too small for the payload is returned exactly as it was.
pub proof fn lemma_embed_skips_when_too_small(data: Seq<u8>, payload: Seq<u8>)
    requires
        !fits(data.len(), payload.len()),
    ensures
        spec_embed(data, payload) == data,
{
}

} // verus!
