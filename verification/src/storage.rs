//! Image intake: bounds, the fixed square canvas, object keys, and the
//! local-disk backend's addressing.
//!
//! Object keys are derived from a generated id alone, never from anything
//! the uploader supplies, so there is no key-injection surface.
use vstd::prelude::*;
use vstd::string::StringSliceAdditionalSpecFns;
use crate::raster::Rgba;
use crate::codec::{CodecError, read_header, header_of, decode_rgba, decoded, encode_png_text, png_with_text, chunk_views,
    thumbnail, thumbnail_of, flatten_onto, over_background, encode_jpeg, jpeg_of};
use crate::watermark::{embed, spec_embed};
use crate::text::{owned, push_str, push_char, chars_of, trim_end_char, trim_end, string_of, starts, starts_with};

verus! {

pub const UPLOAD_ROOT: &'static str = "uploads";
pub const MAX_UPLOAD_BYTES: usize = 12582912;
pub const THUMB_MAX_EDGE: u32 = 480;

/// Hard cap on decoded pixel count, checked before the body is decoded: a
/// few-KB PNG can claim 50000x50000.
pub const MAX_PIXELS: u64 = 40_000_000;

/// Every stored original is exactly this wide and tall.
pub const CANVAS: u32 = 1024;

/// The prefix of every original's invisible watermark; the son's id follows.
pub const WATERMARK_PREFIX: &'static str = "son-collection:v1:";

/// Whether an upload is small enough to be read at all.
pub fn upload_size_ok(len: usize) -> (r: bool)
    ensures
        r == (len <= MAX_UPLOAD_BYTES),
{
    len <= MAX_UPLOAD_BYTES
}

/// Whether a header's claimed dimensions are few enough pixels to decode.
pub fn pixels_ok(width: u32, height: u32) -> (r: bool)
    ensures
        r == (width as int * height as int <= MAX_PIXELS as int),
{
    assert((width as int) * (height as int) <= 0xffff_ffff * 0xffff_ffff) by (nonlinear_arith)
        requires width <= 0xffff_ffff, height <= 0xffff_ffff, width >= 0, height >= 0;
    (width as u64) * (height as u64) <= MAX_PIXELS
}

/// Key of a son's original.
pub fn orig_key(id: &str) -> (r: String)
    ensures
        r@ == "orig/"@ + id@ + ".png"@,
{
    let mut r = owned("orig/");
    push_str(&mut r, id);
    push_str(&mut r, ".png");
    r
}

/// Key of a son's thumbnail, which is JPEG while the original stays PNG.
pub fn thumb_key(id: &str) -> (r: String)
    ensures
        r@ == "thumb/"@ + id@ + ".jpg"@,
{
    let mut r = owned("thumb/");
    push_str(&mut r, id);
    push_str(&mut r, ".jpg");
    r
}

/// The watermark payload for a son: the UTF-8 bytes of the marker prefix,
/// then of its id.
pub fn watermark_payload(id: &str) -> (r: Vec<u8>)
    ensures
        r@ == WATERMARK_PREFIX.spec_bytes() + id.spec_bytes(),
{
    let mut r: Vec<u8> = Vec::new();
    let p = WATERMARK_PREFIX.as_bytes();
    let mut i: usize = 0;
    while i < p.len()
        invariant
            p@ == WATERMARK_PREFIX.spec_bytes(),
            i <= p.len(),
            r@ == p@.take(i as int),
        decreases p.len() - i,
    {
        r.push(p[i]);
        proof { assert(p@.take(i as int + 1) =~= p@.take(i as int).push(p@[i as int])); }
        i = i + 1;
    }
    proof { assert(p@.take(p@.len() as int) =~= p@); }
    let ghost mid = r@;
    let b = id.as_bytes();
    let mut j: usize = 0;
    while j < b.len()
        invariant
            b@ == id.spec_bytes(),
            j <= b.len(),
            r@ == mid + b@.take(j as int),
        decreases b.len() - j,
    {
        r.push(b[j]);
        proof { assert(b@.take(j as int + 1) =~= b@.take(j as int).push(b@[j as int])); }
        j = j + 1;
    }
    proof { assert(b@.take(b@.len() as int) =~= b@); }
    r
}

/// The region `crop` keeps: the requested rectangle clamped to the image.
pub open spec fn crop_dims(iw: u32, ih: u32, x: u32, y: u32, w: u32, h: u32) -> (u32, u32, u32, u32) {
    let x2 = if x < iw { x } else { iw };
    let y2 = if y < ih { y } else { ih };
    let w2 = if w < iw - x2 { w } else { (iw - x2) as u32 };
    let h2 = if h < ih - y2 { h } else { (ih - y2) as u32 };
    (x2, y2, w2, h2)
}

/// Pixel byte `k` of pixel `(px, py)` in a `width`-wide RGBA buffer.
pub open spec fn at(data: Seq<u8>, width: int, px: int, py: int, k: int) -> u8 {
    data[(py * width + px) * 4 + k]
}

/// The bytes `crop` produces for a clamped region, row by row.
pub open spec fn crop_data(data: Seq<u8>, iw: u32, x2: u32, y2: u32, w2: u32, h2: u32) -> Seq<u8> {
    Seq::new(
        (w2 as nat) * (h2 as nat) * 4,
        |i: int| at(data, iw as int, x2 + (i / 4) % (w2 as int), y2 + (i / 4) / (w2 as int), i % 4),
    )
}

/// The pixels `to_square` stores for an image: the centred square crop,
/// resized to the canvas unless it already is that size.
pub open spec fn spec_square_data(img: Rgba) -> Seq<u8> {
    let (x, y, edge) = square_region(img.width, img.height);
    let (x2, y2, w2, h2) = crop_dims(img.width, img.height, x, y, edge, edge);
    let c = crop_data(img.data@, img.width, x2, y2, w2, h2);
    if w2 == CANVAS && h2 == CANVAS {
        c
    } else {
        lanczos3_resize(w2, h2, c, CANVAS, CANVAS)
    }
}

proof fn lemma_split_index(i: int, w: int, h: int)
    requires
        0 <= i < w * h * 4,
        w > 0,
    ensures
        0 <= (i / 4) % w < w,
        0 <= (i / 4) / w < h,
        0 <= i % 4 < 4,
        (((i / 4) / w) * w + (i / 4) % w) * 4 + i % 4 == i,
{
    let p = i / 4;
    assert(p * 4 + i % 4 == i) by (nonlinear_arith) requires p == i / 4;
    assert(p < w * h) by (nonlinear_arith) requires p == i / 4, 0 <= i < w * h * 4;
    assert((p / w) * w + p % w == p) by (nonlinear_arith) requires w > 0;
    assert(0 <= p % w < w) by (nonlinear_arith) requires w > 0, p >= 0;
    assert(0 <= p / w < h) by (nonlinear_arith) requires w > 0, 0 <= p < w * h;
}

proof fn lemma_index_bound(px: int, py: int, k: int, w: int, h: int)
    requires
        0 <= px < w,
        0 <= py < h,
        0 <= k < 4,
    ensures
        0 <= (py * w + px) * 4 + k < w * h * 4,
        (py * w + px) * 4 + k == py * (w * 4) + px * 4 + k,
{
    assert(py * w + px < w * h) by (nonlinear_arith) requires 0 <= px < w, 0 <= py < h;
    assert(0 <= py * w) by (nonlinear_arith) requires 0 <= py, 0 <= w;
    assert((py * w + px) * 4 + k == py * (w * 4) + px * 4 + k) by (nonlinear_arith);
}

/// The rectangle at `(x, y)`, `w` by `h`, clamped to the image, as a new
/// image: `imageops::crop_imm` followed by `to_image`.
pub fn crop(img: &Rgba, x: u32, y: u32, w: u32, h: u32) -> (r: Rgba)
    requires
        img.wf(),
    ensures
        r.wf(),
        ({
            let (x2, y2, w2, h2) = crop_dims(img.width, img.height, x, y, w, h);
            &&& r.width == w2 && r.height == h2
            &&& forall|px: int, py: int, k: int| 0 <= px < w2 && 0 <= py < h2 && 0 <= k < 4 ==>
                #[trigger] at(r.data@, w2 as int, px, py, k) == at(img.data@, img.width as int, x2 + px, y2 + py, k)
            &&& r.data@ == crop_data(img.data@, img.width, x2, y2, w2, h2)
        }),
{
    let x2 = if x < img.width { x } else { img.width };
    let y2 = if y < img.height { y } else { img.height };
    let w2 = if w < img.width - x2 { w } else { img.width - x2 };
    let h2 = if h < img.height - y2 { h } else { img.height - y2 };
    let mut data: Vec<u8> = Vec::new();
    let iw = img.width as usize;
    let dl = img.data.len();
    let mut py: u32 = 0;
    while py < h2
        invariant
            img.wf(),
            iw == img.width,
            dl == img.data@.len(),
            x2 as int + w2 as int <= img.width,
            y2 as int + h2 as int <= img.height,
            py <= h2,
            data@.len() == (py as int) * (w2 as int) * 4,
            forall|qx: int, qy: int, k: int| 0 <= qx < w2 && 0 <= qy < py && 0 <= k < 4 ==>
                #[trigger] at(data@, w2 as int, qx, qy, k) == at(img.data@, img.width as int, x2 + qx, y2 + qy, k),
        decreases h2 - py,
    {
        let mut px: u32 = 0;
        while px < w2
            invariant
                img.wf(),
                iw == img.width,
                dl == img.data@.len(),
                x2 as int + w2 as int <= img.width,
                y2 as int + h2 as int <= img.height,
                py < h2,
                px <= w2,
                data@.len() == ((py as int) * (w2 as int) + px as int) * 4,
                forall|qx: int, qy: int, k: int| 0 <= qx < w2 && 0 <= qy < py && 0 <= k < 4 ==>
                    #[trigger] at(data@, w2 as int, qx, qy, k) == at(img.data@, img.width as int, x2 + qx, y2 + qy, k),
                forall|qx: int, k: int| 0 <= qx < px && 0 <= k < 4 ==>
                    #[trigger] at(data@, w2 as int, qx, py as int, k) == at(img.data@, img.width as int, x2 + qx, y2 + py, k),
            decreases w2 - px,
        {
            let sx = (x2 + px) as usize;
            let sy = (y2 + py) as usize;
            proof {
                lemma_index_bound(sx as int, sy as int, 0, img.width as int, img.height as int);
                lemma_index_bound(sx as int, sy as int, 3, img.width as int, img.height as int);
                assert((sy as int * iw as int + sx as int) * 4 + 3 < img.data@.len());
                assert(sy as int * iw as int <= (sy as int * iw as int + sx as int) * 4 + 3) by (nonlinear_arith)
                    requires sy >= 0, iw >= 0, sx >= 0;
            }
            let row = sy * iw;
            let base = (row + sx) * 4;
            let ghost before = data@;
            data.push(img.data[base]);
            data.push(img.data[base + 1]);
            data.push(img.data[base + 2]);
            data.push(img.data[base + 3]);
            proof {
                let n = (py as int) * (w2 as int) + px as int;
                assert(before.len() == n * 4);
                assert(data@.len() == n * 4 + 4);
                assert(data@[n * 4] == img.data@[base as int]);
                assert(data@[n * 4 + 1] == img.data@[base + 1]);
                assert(data@[n * 4 + 2] == img.data@[base + 2]);
                assert(data@[n * 4 + 3] == img.data@[base + 3]);
                assert(base as int == ((y2 + py) * (img.width as int) + (x2 + px)) * 4);
                assert forall|qx: int, qy: int, k: int| 0 <= qx < w2 && 0 <= qy < py && 0 <= k < 4 implies
                    #[trigger] at(data@, w2 as int, qx, qy, k) == at(img.data@, img.width as int, x2 + qx, y2 + qy, k) by {
                    assert(at(before, w2 as int, qx, qy, k) == at(img.data@, img.width as int, x2 + qx, y2 + qy, k));
                    assert((qy * w2 + qx) * 4 + k < n * 4) by (nonlinear_arith)
                        requires n == py * w2 + px, 0 <= qx < w2, 0 <= qy < py, 0 <= k < 4, px >= 0;
                    assert(0 <= (qy * w2 + qx) * 4 + k) by (nonlinear_arith)
                        requires 0 <= qx, 0 <= qy, 0 <= k, w2 >= 0;
                    assert(data@[(qy * w2 + qx) * 4 + k] == before[(qy * w2 + qx) * 4 + k]);
                }
                assert forall|qx: int, k: int| 0 <= qx < px + 1 && 0 <= k < 4 implies
                    #[trigger] at(data@, w2 as int, qx, py as int, k) == at(img.data@, img.width as int, x2 + qx, y2 + py, k) by {
                    assert((py * w2 + qx) * 4 + k == n * 4 + (qx - px) * 4 + k) by (nonlinear_arith)
                        requires n == py * w2 + px;
                    if qx < px {
                        assert(at(before, w2 as int, qx, py as int, k) == at(img.data@, img.width as int, x2 + qx, y2 + py, k));
                        assert((py * w2 + qx) * 4 + k < n * 4) by (nonlinear_arith)
                            requires n == py * w2 + px, qx < px, 0 <= k < 4;
                        assert(0 <= (py * w2 + qx) * 4 + k) by (nonlinear_arith)
                            requires 0 <= qx, 0 <= py, 0 <= k, w2 >= 0;
                        assert(data@[(py * w2 + qx) * 4 + k] == before[(py * w2 + qx) * 4 + k]);
                    } else {
                        assert(qx == px);
                        assert((py * w2 + qx) * 4 + k == n * 4 + k);
                        assert(((y2 + py) * (img.width as int) + (x2 + qx)) * 4 + k == base + k);
                    }
                }
                assert(data@.len() == ((py as int) * (w2 as int) + px as int + 1) * 4) by (nonlinear_arith)
                    requires data@.len() == n * 4 + 4, n == (py as int) * (w2 as int) + px as int;
            }
            px = px + 1;
        }
        proof {
            assert(data@.len() == ((py as int + 1) * (w2 as int)) * 4) by (nonlinear_arith)
                requires data@.len() == ((py as int) * (w2 as int) + w2 as int) * 4;
        }
        py = py + 1;
    }
    proof {
        assert(data@.len() == (w2 as int) * (h2 as int) * 4) by (nonlinear_arith)
            requires data@.len() == (h2 as int) * (w2 as int) * 4;
        let c = crop_data(img.data@, img.width, x2, y2, w2, h2);
        assert forall|i: int| 0 <= i < data@.len() implies data@[i] == c[i] by {
            lemma_split_index(i, w2 as int, h2 as int);
            let qx = (i / 4) % (w2 as int);
            let qy = (i / 4) / (w2 as int);
            assert(at(data@, w2 as int, qx, qy, i % 4) == at(img.data@, img.width as int, x2 + qx, y2 + qy, i % 4));
        }
        assert(data@ =~= c);
    }
    Rgba { width: w2, height: h2, data }
}

/// The centred square `to_square` crops to: offsets and edge.
pub open spec fn square_region(w: u32, h: u32) -> (u32, u32, u32) {
    let w1 = if w == 0 { 1u32 } else { w };
    let h1 = if h == 0 { 1u32 } else { h };
    let edge = if w1 < h1 { w1 } else { h1 };
    (((w1 - edge) / 2) as u32, ((h1 - edge) / 2) as u32, edge)
}

/// Squaring keeps the centred square of an image: its side is the shorter
/// side `e`, and it sits `(w - e) / 2` from the left and `(h - e) / 2` from
/// the top, so an odd difference leaves the extra pixel on the right or at
/// the bottom. Pixel `(px, py)` of that square is pixel `(x + px, y + py)`
/// of the image; the square is stored as it is when it already has the
/// canvas size, and otherwise resized to it.
pub proof fn lemma_square_keeps_the_centre(img: Rgba)
    requires
        img.wf(),
        img.width > 0,
        img.height > 0,
    ensures
        ({
            let w = img.width as int;
            let h = img.height as int;
            let e = if w < h { w } else { h };
            let x = (w - e) / 2;
            let y = (h - e) / 2;
            let centre = Seq::new((e * e * 4) as nat,
                |i: int| img.data@[((y + (i / 4) / e) * w + x + (i / 4) % e) * 4 + i % 4]);
            spec_square_data(img) == if e == CANVAS {
                centre
            } else {
                lanczos3_resize(e as u32, e as u32, centre, CANVAS, CANVAS)
            }
        }),
{
    let w = img.width as int;
    let h = img.height as int;
    let e = if w < h { w } else { h };
    let x = (w - e) / 2;
    let y = (h - e) / 2;
    let (rx, ry, re) = square_region(img.width, img.height);
    assert(rx == x && ry == y && re == e);
    let (x2, y2, w2, h2) = crop_dims(img.width, img.height, rx, ry, re, re);
    assert(x2 == x && y2 == y && w2 == e && h2 == e);
    let centre = Seq::new((e * e * 4) as nat,
        |i: int| img.data@[((y + (i / 4) / e) * w + x + (i / 4) % e) * 4 + i % 4]);
    let c = crop_data(img.data@, img.width, x2, y2, w2, h2);
    assert((w2 as nat) * (h2 as nat) * 4 == (e * e * 4) as nat) by (nonlinear_arith)
        requires w2 == e, h2 == e, e > 0;
    assert forall|i: int| 0 <= i < c.len() implies c[i] == centre[i] by {
        assert(((y + (i / 4) / e) * w + (x + (i / 4) % e)) * 4 + i % 4
            == ((y + (i / 4) / e) * w + x + (i / 4) % e) * 4 + i % 4);
    }
    assert(c =~= centre);
}

/// Image pixels resized with the Lanczos3 filter to exactly `nw` by `nh`,
/// as `image::imageops::resize` computes them.
pub uninterp spec fn lanczos3_resize(width: u32, height: u32, data: Seq<u8>, nw: u32, nh: u32) -> Seq<u8>;

/// `image::imageops::resize` with `FilterType::Lanczos3`. The result is
/// exactly `nw` by `nh`, RGBA8; its pixels are named, not stated.
#[verifier::external_body]
pub(crate) fn resize_lanczos3(img: &Rgba, nw: u32, nh: u32) -> (r: Rgba)
    requires
        img.wf(),
    ensures
        r.width == nw,
        r.height == nh,
        r.wf(),
        r.data@ == lanczos3_resize(img.width, img.height, img.data@, nw, nh),
{
    let src = image::RgbaImage::from_raw(img.width, img.height, img.data.clone()).unwrap();
    let out = image::imageops::resize(&src, nw, nh, image::imageops::FilterType::Lanczos3);
    Rgba { width: out.width(), height: out.height(), data: out.into_raw() }
}

/// Forces an image to a `CANVAS`-sized square: crop to the centre, then
/// scale. Cropping rather than letterboxing keeps padding out of every
/// stored file; with an odd difference the extra pixel is left on the
/// right or bottom.
pub fn to_square(img: &Rgba) -> (r: Rgba)
    requires
        img.wf(),
    ensures
        r.wf(),
        r.width == CANVAS,
        r.height == CANVAS,
        ({
            let (x, y, edge) = square_region(img.width, img.height);
            let (x2, y2, w2, h2) = crop_dims(img.width, img.height, x, y, edge, edge);
            w2 == CANVAS && h2 == CANVAS ==> forall|px: int, py: int, k: int|
                0 <= px < CANVAS && 0 <= py < CANVAS && 0 <= k < 4 ==>
                #[trigger] at(r.data@, CANVAS as int, px, py, k) == at(img.data@, img.width as int, x2 + px, y2 + py, k)
        }),
        r.data@ == spec_square_data(*img),
{
    let w = if img.width == 0 { 1 } else { img.width };
    let h = if img.height == 0 { 1 } else { img.height };
    let edge = if w < h { w } else { h };
    let square = crop(img, (w - edge) / 2, (h - edge) / 2, edge, edge);
    if square.width == CANVAS && square.height == CANVAS {
        return square;
    }
    resize_lanczos3(&square, CANVAS, CANVAS)
}

/// The local-disk backend: files under `root`, served under `url_prefix`.
#[derive(Debug)]
pub struct LocalDisk {
    pub root: String,
    pub url_prefix: String,
}

impl LocalDisk {
    pub fn new(root: &str, url_prefix: &str) -> (r: Self)
        ensures
            r.root@ == root@,
            r.url_prefix@ == url_prefix@,
    {
        LocalDisk { root: owned(root), url_prefix: owned(url_prefix) }
    }

}

/// Where the bytes live. The storing, fetching and deleting are I/O and
/// belong to the server; what a backend says about itself is here.
pub trait Backend {
    /// Publicly reachable URL for a stored key.
    fn public_url(&self, key: &str) -> String;

    /// How the backend names itself in the startup log.
    fn name(&self) -> String;
}

impl Backend for LocalDisk {
    fn public_url(&self, key: &str) -> (r: String)
        ensures
            r@ == trim_end(self.url_prefix@, '/') + "/"@ + key@,
    {
        let p = chars_of(self.url_prefix.as_str());
        let mut r = string_of(&trim_end_char(&p, '/'));
        push_str(&mut r, "/");
        push_str(&mut r, key);
        r
    }

    fn name(&self) -> (r: String)
        ensures
            r@ == "local disk ("@ + self.root@ + ")"@,
    {
        let mut r = owned("local disk (");
        push_str(&mut r, self.root.as_str());
        push_str(&mut r, ")");
        r
    }
}

/// Where a key lives under the local root, as `Path::join` builds it on a
/// Unix path: an absolute key replaces the root, and a separator is added
/// only when the root does not already end in one.
pub open spec fn spec_local_path(root: Seq<char>, key: Seq<char>) -> Seq<char> {
    if starts(key, "/"@) || root.len() == 0 {
        key
    } else if root.last() == '/' {
        root + key
    } else {
        root + "/"@ + key
    }
}

pub fn local_path(root: &str, key: &str) -> (r: String)
    ensures
        r@ == spec_local_path(root@, key@),
{
    let k = chars_of(key);
    let rc = chars_of(root);
    if starts_with(&k, "/") || rc.len() == 0 {
        return owned(key);
    }
    let mut r = owned(root);
    if rc[rc.len() - 1] != '/' {
        push_str(&mut r, "/");
    }
    push_str(&mut r, key);
    r
}

/// Where a son's files ended up.
#[derive(Debug)]
pub struct Stored {
    pub id: String,
    pub orig_url: String,
    pub thumb_url: String,
    pub width: u32,
    pub height: u32,
}

/// Why an upload could not be turned into pixels.
#[derive(Debug)]
pub enum DecodeError {
    /// Over the size limit, with the size in bytes.
    TooBig(usize),
    /// The reader could not be set up, with its message.
    Unreadable(String),
    /// The header claims more pixels than the limit.
    TooManyPixels(u32, u32),
    /// The image itself would not decode, with the decoder's message.
    Undecodable(String),
}

impl DecodeError {
    /// The line shown for the error. A size refusal is written by the
    /// server, which states the size in fractional megabytes.
    pub fn message(&self) -> (r: Option<String>)
        ensures
            match *self {
                DecodeError::TooBig(_) => r is None,
                DecodeError::Unreadable(e) => r matches Some(m) && m@ == "unreadable image: "@ + e@,
                DecodeError::TooManyPixels(w, h) => r matches Some(m)
                    && m@ == crate::text::decimal(w as nat) + "x"@ + crate::text::decimal(h as nat) + " is too many pixels"@,
                DecodeError::Undecodable(e) => r matches Some(m) && m@ == "could not decode: "@ + e@,
            },
    {
        match self {
            DecodeError::TooBig(_) => None,
            DecodeError::Unreadable(e) => {
                let mut m = owned("unreadable image: ");
                push_str(&mut m, e.as_str());
                Some(m)
            }
            DecodeError::TooManyPixels(w, h) => {
                let mut m = String::new();
                crate::text::push_decimal(&mut m, *w as u64);
                push_str(&mut m, "x");
                crate::text::push_decimal(&mut m, *h as u64);
                push_str(&mut m, " is too many pixels");
                Some(m)
            }
            DecodeError::Undecodable(e) => {
                let mut m = owned("could not decode: ");
                push_str(&mut m, e.as_str());
                Some(m)
            }
        }
    }
}

/// Decodes an upload, refusing anything oversized before it is rasterised:
/// first the byte count, then the pixel count the header claims (a few-KB
/// file can claim 50000x50000), and only then the image itself.
pub fn decode(bytes: &[u8]) -> (r: Result<Rgba, DecodeError>)
    ensures
        bytes@.len() > MAX_UPLOAD_BYTES ==> (r matches Err(DecodeError::TooBig(n)) && n == bytes@.len()),
        bytes@.len() <= MAX_UPLOAD_BYTES ==> match header_of(bytes@) {
            Err(e) => r matches Err(DecodeError::Unreadable(m)) && m@ == e,
            Ok(Some((w, h))) if w as int * h as int > MAX_PIXELS as int =>
                r matches Err(DecodeError::TooManyPixels(a, b)) && a == w && b == h,
            _ => match decoded(bytes@) {
                Ok((w, h, d)) => r matches Ok(img) && img.wf() && img.width == w && img.height == h && img.data@ == d,
                Err((true, e)) => r matches Err(DecodeError::Unreadable(m)) && m@ == e,
                Err((false, e)) => r matches Err(DecodeError::Undecodable(m)) && m@ == e,
            },
        },
{
    if !upload_size_ok(bytes.len()) {
        return Err(DecodeError::TooBig(bytes.len()));
    }
    match read_header(bytes) {
        Err(e) => return Err(DecodeError::Unreadable(e)),
        Ok(Some((w, h))) => {
            if !pixels_ok(w, h) {
                return Err(DecodeError::TooManyPixels(w, h));
            }
        }
        Ok(None) => {}
    }
    match decode_rgba(bytes) {
        Ok(img) => Ok(img),
        Err(CodecError::Reader(e)) => Err(DecodeError::Unreadable(e)),
        Err(CodecError::Image(e)) => Err(DecodeError::Undecodable(e)),
    }
}

/// RGBA8 pixels with the alpha byte of each dropped.
pub open spec fn spec_drop_alpha(data: Seq<u8>) -> Seq<u8> {
    Seq::new((data.len() / 4 * 3) as nat, |i: int| data[(i / 3) * 4 + i % 3])
}

/// RGB8 rows from RGBA8 ones, as `to_rgb8` converts them.
pub fn drop_alpha(img: &Rgba) -> (r: Vec<u8>)
    requires
        img.wf(),
    ensures
        r@ == spec_drop_alpha(img.data@),
        r@.len() == (img.width as int) * (img.height as int) * 3,
{
    let n = img.data.len() / 4;
    let mut out: Vec<u8> = Vec::new();
    let mut p: usize = 0;
    while p < n
        invariant
            n == img.data@.len() / 4,
            p <= n,
            out@.len() == p * 3,
            forall|i: int| 0 <= i < out@.len() ==> out@[i] == #[trigger] img.data@[(i / 3) * 4 + i % 3],
        decreases n - p,
    {
        assert(p * 4 + 3 < img.data@.len()) by (nonlinear_arith)
            requires p < n, n == img.data@.len() / 4;
        assert(img.data@.len() == img.data.len());
        let base = p * 4;
        out.push(img.data[base]);
        out.push(img.data[base + 1]);
        out.push(img.data[base + 2]);
        proof {
            assert forall|i: int| 0 <= i < out@.len() implies out@[i] == #[trigger] img.data@[(i / 3) * 4 + i % 3] by {
                if i >= p * 3 {
                    assert(i / 3 == p as int && i % 3 == i - p * 3) by (nonlinear_arith)
                        requires p * 3 <= i < p * 3 + 3;
                }
            }
        }
        p = p + 1;
    }
    proof {
        assert(out@ =~= spec_drop_alpha(img.data@));
        assert((img.width as int) * (img.height as int) * 4 / 4 * 3 == (img.width as int) * (img.height as int) * 3)
            by (nonlinear_arith);
    }
    out
}

/// The surface colour thumbnails are drawn on, which a transparent source
/// flattens to rather than to black.
pub const THUMB_BG: (u8, u8, u8, u8) = (0x12, 0x14, 0x19, 0xff);

/// JPEG quality of thumbnails.
pub const THUMB_QUALITY: u8 = 82;

/// A thumbnail's JPEG: flattened onto the tile colour, alpha dropped, and
/// encoded at the thumbnail quality.
pub open spec fn spec_thumb_jpeg(width: u32, height: u32, data: Seq<u8>) -> Result<Seq<u8>, Seq<char>> {
    jpeg_of(width, height, spec_drop_alpha(over_background(width, height, data, THUMB_BG)), THUMB_QUALITY)
}

pub fn encode_thumb_jpeg(thumb: &Rgba) -> (r: Result<Vec<u8>, String>)
    requires
        thumb.wf(),
    ensures
        match r {
            Ok(b) => spec_thumb_jpeg(thumb.width, thumb.height, thumb.data@) == Ok::<Seq<u8>, Seq<char>>(b@),
            Err(e) => spec_thumb_jpeg(thumb.width, thumb.height, thumb.data@) == Err::<Seq<u8>, Seq<char>>(e@),
        },
{
    let flat = flatten_onto(thumb, THUMB_BG);
    let rgb = drop_alpha(&flat);
    encode_jpeg(&rgb, flat.width, flat.height, THUMB_QUALITY)
}

/// The provenance text written into every original: its title, the site
/// as the software, the page as the description, and the uploader as the
/// author when there is one.
pub open spec fn spec_png_chunks(title: Seq<char>, uploader: Option<Seq<char>>, page_url: Seq<char>)
    -> Seq<(Seq<char>, Seq<char>)> {
    let base = seq![("Title"@, title), ("Software"@, "son collection (soncollection.com)"@), ("Description"@, page_url)];
    match uploader {
        Some(a) => base.push(("Author"@, a)),
        None => base,
    }
}

pub fn png_chunks(title: &str, uploader: Option<&str>, page_url: &str) -> (r: Vec<(String, String)>)
    ensures
        chunk_views(r@) == spec_png_chunks(title@, match uploader { Some(a) => Some(a@), None => None }, page_url@),
{
    let mut r: Vec<(String, String)> = Vec::new();
    r.push((owned("Title"), owned(title)));
    r.push((owned("Software"), owned("son collection (soncollection.com)")));
    r.push((owned("Description"), owned(page_url)));
    match uploader {
        Some(a) => r.push((owned("Author"), owned(a))),
        None => {}
    }
    proof {
        assert(chunk_views(r@) =~= spec_png_chunks(title@, match uploader { Some(a) => Some(a@), None => None }, page_url@));
    }
    r
}

/// Everything the store writes for one son, ready to upload.
#[derive(Debug)]
pub struct Prepared {
    pub orig_key: String,
    /// The watermarked original, PNG, with the provenance text.
    pub orig_png: Vec<u8>,
    pub thumb_key: String,
    pub thumb_jpeg: Vec<u8>,
    pub width: u32,
    pub height: u32,
}

/// The files for son `id`: the original watermarked with its id and
/// re-encoded as PNG with the site's own provenance text (which strips
/// whatever metadata the upload carried), and a JPEG thumbnail that carries
/// neither.
pub fn prepare_store(img: &Rgba, id: &str, title: &str, uploader_name: Option<&str>, page_url: &str)
    -> (r: Result<Prepared, String>)
    requires
        img.wf(),
    ensures
        ({
            let payload = WATERMARK_PREFIX.spec_bytes() + id.spec_bytes();
            let chunks = spec_png_chunks(title@, match uploader_name { Some(a) => Some(a@), None => None }, page_url@);
            let t = thumbnail_of(img.width, img.height, img.data@, THUMB_MAX_EDGE);
            match png_with_text(img.width, img.height, spec_embed(img.data@, payload), chunks) {
                Err(e) => r matches Err(m) && m@ == e,
                Ok(png) => match spec_thumb_jpeg(t.0, t.1, t.2) {
                    Err(e) => r matches Err(m) && m@ == e,
                    Ok(jpeg) => r matches Ok(p) && {
                        &&& p.orig_key@ == "orig/"@ + id@ + ".png"@
                        &&& p.thumb_key@ == "thumb/"@ + id@ + ".jpg"@
                        &&& p.width == img.width && p.height == img.height
                        &&& p.orig_png@ == png
                        &&& p.thumb_jpeg@ == jpeg
                    },
                },
            }
        }),
{
    let thumb = thumbnail(img, THUMB_MAX_EDGE);
    let payload = watermark_payload(id);
    let marked = embed(img, &payload);
    proof {
        assert(marked.wf());
    }
    let chunks = png_chunks(title, uploader_name, page_url);
    let orig_png = match encode_png_text(&marked, &chunks) {
        Ok(b) => b,
        Err(e) => return Err(e),
    };
    let thumb_jpeg = match encode_thumb_jpeg(&thumb) {
        Ok(b) => b,
        Err(e) => return Err(e),
    };
    Ok(Prepared {
        orig_key: orig_key(id),
        orig_png,
        thumb_key: thumb_key(id),
        thumb_jpeg,
        width: img.width,
        height: img.height,
    })
}


/// Which of a son's two files a write was for.
#[derive(Clone, Copy, Debug, PartialEq, Eq, Structural)]
pub enum WriteStage {
    Original,
    Thumbnail,
}

/// What storing a son does next once a write has come back.
#[derive(Clone, Copy, Debug, PartialEq, Eq, Structural)]
pub enum StoreAction {
    /// The original is in place: write the thumbnail.
    WriteThumbnail,
    /// The thumbnail failed: delete the original again, then fail.
    DeleteOriginal,
    /// Both files are in place.
    Done,
    /// Nothing was written: fail.
    Fail,
}

pub open spec fn spec_after_write(stage: WriteStage, ok: bool) -> StoreAction {
    match stage {
        WriteStage::Original => if ok { StoreAction::WriteThumbnail } else { StoreAction::Fail },
        WriteStage::Thumbnail => if ok { StoreAction::Done } else { StoreAction::DeleteOriginal },
    }
}

/// The step after the write of `stage` came back with `ok`. The original is
/// written first; a son whose thumbnail cannot be written loses its original
/// again, so no son is left with one file of two.
pub fn after_write(stage: WriteStage, ok: bool) -> (a: StoreAction)
    ensures
        a == spec_after_write(stage, ok),
{
    match stage {
        WriteStage::Original => if ok { StoreAction::WriteThumbnail } else { StoreAction::Fail },
        WriteStage::Thumbnail => if ok { StoreAction::Done } else { StoreAction::DeleteOriginal },
    }
}

/// Which files are left, as (original, thumbnail), when the original's write
/// comes back with `orig_ok` and the thumbnail's, if it is tried, with
/// `thumb_ok`, and the steps of `after_write` are followed.
pub open spec fn files_left(orig_ok: bool, thumb_ok: bool) -> (bool, bool) {
    match spec_after_write(WriteStage::Original, orig_ok) {
        StoreAction::WriteThumbnail => match spec_after_write(WriteStage::Thumbnail, thumb_ok) {
            StoreAction::Done => (true, true),
            _ => (false, false),
        },
        _ => (false, false),
    }
}

/// Storing a son leaves both of its files or neither, and both exactly when
/// both writes succeed.
pub proof fn lemma_store_leaves_both_files_or_none(orig_ok: bool, thumb_ok: bool)
    ensures
        files_left(orig_ok, thumb_ok).0 == files_left(orig_ok, thumb_ok).1,
        files_left(orig_ok, thumb_ok).0 == (orig_ok && thumb_ok),
{
}

} // verus!
