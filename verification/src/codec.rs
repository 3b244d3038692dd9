//! Image files to pixels and back, through the `image` and `png` crates.
//! Every answer here is the crate's, named rather than stated: each is a
//! function of the arguments alone, and what the site does with it is
//! verified where it is used.
use vstd::prelude::*;
use crate::raster::Rgba;

verus! {

/// How a codec call failed: setting up the reader (an I/O error on an
/// in-memory buffer), or the image itself.
#[derive(Debug)]
pub enum CodecError {
    Reader(String),
    Image(String),
}

/// What reading an upload's header gives: the reader could not be set up
/// (with its message), or the dimensions the header claims if it could be
/// read.
pub uninterp spec fn header_of(bytes: Seq<u8>) -> Result<Option<(u32, u32)>, Seq<char>>;

/// `ImageReader::with_guessed_format` on the bytes, then `into_dimensions`.
/// Nothing is decoded past the header.
#[verifier::external_body]
pub(crate) fn read_header(bytes: &[u8]) -> (r: Result<Option<(u32, u32)>, String>)
    ensures
        match r {
            Ok(d) => header_of(bytes@) == Ok::<Option<(u32, u32)>, Seq<char>>(d),
            Err(e) => header_of(bytes@) == Err::<Option<(u32, u32)>, Seq<char>>(e@),
        },
{
    match image::ImageReader::new(std::io::Cursor::new(bytes)).with_guessed_format() {
        Ok(reader) => Ok(reader.into_dimensions().ok()),
        Err(e) => Err(e.to_string()),
    }
}

/// What decoding an upload gives: its size and RGBA8 pixels, or why not.
pub uninterp spec fn decoded(bytes: Seq<u8>) -> Result<(u32, u32, Seq<u8>), (bool, Seq<char>)>;

/// `ImageReader::with_guessed_format`, `decode`, then `to_rgba8`. The
/// pixels come back as RGBA8 rows, four bytes each.
#[verifier::external_body]
pub(crate) fn decode_rgba(bytes: &[u8]) -> (r: Result<Rgba, CodecError>)
    ensures
        match r {
            Ok(img) => img.wf() && decoded(bytes@) == Ok::<(u32, u32, Seq<u8>), (bool, Seq<char>)>((img.width, img.height, img.data@)),
            Err(CodecError::Reader(e)) => decoded(bytes@) == Err::<(u32, u32, Seq<u8>), (bool, Seq<char>)>((true, e@)),
            Err(CodecError::Image(e)) => decoded(bytes@) == Err::<(u32, u32, Seq<u8>), (bool, Seq<char>)>((false, e@)),
        },
{
    let reader = match image::ImageReader::new(std::io::Cursor::new(bytes)).with_guessed_format() {
        Ok(r) => r,
        Err(e) => return Err(CodecError::Reader(e.to_string())),
    };
    match reader.decode() {
        Ok(img) => {
            let rgba = img.to_rgba8();
            Ok(Rgba { width: rgba.width(), height: rgba.height(), data: rgba.into_raw() })
        }
        Err(e) => Err(CodecError::Image(e.to_string())),
    }
}

/// What `image::load_from_memory` gives for some bytes, as RGBA8.
pub uninterp spec fn loaded(bytes: Seq<u8>) -> Result<(u32, u32, Seq<u8>), Seq<char>>;

/// `image::load_from_memory`, then `to_rgba8`.
#[verifier::external_body]
pub(crate) fn load_rgba(bytes: &[u8]) -> (r: Result<Rgba, String>)
    ensures
        match r {
            Ok(img) => img.wf() && loaded(bytes@) == Ok::<(u32, u32, Seq<u8>), Seq<char>>((img.width, img.height, img.data@)),
            Err(e) => loaded(bytes@) == Err::<(u32, u32, Seq<u8>), Seq<char>>(e@),
        },
{
    match image::load_from_memory(bytes) {
        Ok(img) => {
            let rgba = img.to_rgba8();
            Ok(Rgba { width: rgba.width(), height: rgba.height(), data: rgba.into_raw() })
        }
        Err(e) => Err(e.to_string()),
    }
}

/// The PNG file `DynamicImage::write_to` writes for RGBA8 pixels.
pub uninterp spec fn plain_png(width: u32, height: u32, data: Seq<u8>) -> Result<Seq<u8>, Seq<char>>;

/// `DynamicImage::write_to` with `ImageFormat::Png`, into memory.
#[verifier::external_body]
pub(crate) fn write_png(img: &Rgba) -> (r: Result<Vec<u8>, String>)
    requires
        img.wf(),
    ensures
        match r {
            Ok(b) => plain_png(img.width, img.height, img.data@) == Ok::<Seq<u8>, Seq<char>>(b@),
            Err(e) => plain_png(img.width, img.height, img.data@) == Err::<Seq<u8>, Seq<char>>(e@),
        },
{
    let buf = image::RgbaImage::from_raw(img.width, img.height, img.data.clone()).unwrap();
    let mut out = std::io::Cursor::new(Vec::new());
    match image::DynamicImage::ImageRgba8(buf).write_to(&mut out, image::ImageFormat::Png) {
        Ok(()) => Ok(out.into_inner()),
        Err(e) => Err(e.to_string()),
    }
}

/// The PNG file the `png` encoder writes for RGBA8 pixels carrying these
/// iTXt chunks, in order.
pub uninterp spec fn png_with_text(width: u32, height: u32, data: Seq<u8>, chunks: Seq<(Seq<char>, Seq<char>)>)
    -> Result<Seq<u8>, Seq<char>>;

pub open spec fn chunk_views(c: Seq<(String, String)>) -> Seq<(Seq<char>, Seq<char>)> {
    c.map_values(|p: (String, String)| (p.0@, p.1@))
}

/// `png::Encoder` for 8-bit RGBA, `add_itxt_chunk` for each chunk, then
/// the header and the pixel data.
#[verifier::external_body]
pub(crate) fn encode_png_text(img: &Rgba, chunks: &[(String, String)]) -> (r: Result<Vec<u8>, String>)
    requires
        img.wf(),
    ensures
        match r {
            Ok(b) => png_with_text(img.width, img.height, img.data@, chunk_views(chunks@)) == Ok::<Seq<u8>, Seq<char>>(b@),
            Err(e) => png_with_text(img.width, img.height, img.data@, chunk_views(chunks@)) == Err::<Seq<u8>, Seq<char>>(e@),
        },
{
    let mut buf = Vec::new();
    let mut enc = png::Encoder::new(&mut buf, img.width, img.height);
    enc.set_color(png::ColorType::Rgba);
    enc.set_depth(png::BitDepth::Eight);
    for (k, v) in chunks {
        enc.add_itxt_chunk(k.clone(), v.clone()).map_err(|e| e.to_string())?;
    }
    let mut writer = enc.write_header().map_err(|e| e.to_string())?;
    writer.write_image_data(&img.data).map_err(|e| e.to_string())?;
    drop(writer);
    Ok(buf)
}

/// The thumbnail `DynamicImage::thumbnail` makes to fit within `max` by
/// `max`: its size and RGBA8 pixels.
pub uninterp spec fn thumbnail_of(width: u32, height: u32, data: Seq<u8>, max: u32) -> (u32, u32, Seq<u8>);

/// `DynamicImage::thumbnail` with both bounds `max`.
#[verifier::external_body]
pub(crate) fn thumbnail(img: &Rgba, max: u32) -> (r: Rgba)
    requires
        img.wf(),
    ensures
        r.wf(),
        (r.width, r.height, r.data@) == thumbnail_of(img.width, img.height, img.data@, max),
{
    let buf = image::RgbaImage::from_raw(img.width, img.height, img.data.clone()).unwrap();
    let t = image::DynamicImage::ImageRgba8(buf).thumbnail(max, max).to_rgba8();
    Rgba { width: t.width(), height: t.height(), data: t.into_raw() }
}

/// The pixels `imageops::overlay` gives for an image laid over a solid
/// background of the same size.
pub uninterp spec fn over_background(width: u32, height: u32, data: Seq<u8>, bg: (u8, u8, u8, u8)) -> Seq<u8>;

/// `RgbaImage::from_pixel` of the background, then `imageops::overlay` of
/// the image at the origin. The size is unchanged.
#[verifier::external_body]
pub(crate) fn flatten_onto(img: &Rgba, bg: (u8, u8, u8, u8)) -> (r: Rgba)
    requires
        img.wf(),
    ensures
        r.wf(),
        r.width == img.width && r.height == img.height,
        r.data@ == over_background(img.width, img.height, img.data@, bg),
{
    let top = image::RgbaImage::from_raw(img.width, img.height, img.data.clone()).unwrap();
    let mut flat = image::RgbaImage::from_pixel(img.width, img.height, image::Rgba([bg.0, bg.1, bg.2, bg.3]));
    image::imageops::overlay(&mut flat, &top, 0, 0);
    Rgba { width: flat.width(), height: flat.height(), data: flat.into_raw() }
}

/// The JPEG file `JpegEncoder` writes at `quality` for RGB8 pixels.
pub uninterp spec fn jpeg_of(width: u32, height: u32, rgb: Seq<u8>, quality: u8) -> Result<Seq<u8>, Seq<char>>;

/// `JpegEncoder::new_with_quality`, then `encode` of RGB8 rows.
#[verifier::external_body]
pub(crate) fn encode_jpeg(rgb: &[u8], width: u32, height: u32, quality: u8) -> (r: Result<Vec<u8>, String>)
    requires
        rgb@.len() == (width as int) * (height as int) * 3,
    ensures
        match r {
            Ok(b) => jpeg_of(width, height, rgb@, quality) == Ok::<Seq<u8>, Seq<char>>(b@),
            Err(e) => jpeg_of(width, height, rgb@, quality) == Err::<Seq<u8>, Seq<char>>(e@),
        },
{
    let mut buf = Vec::new();
    match image::codecs::jpeg::JpegEncoder::new_with_quality(&mut buf, quality)
        .encode(rgb, width, height, image::ExtendedColorType::Rgb8) {
        Ok(()) => Ok(buf),
        Err(e) => Err(e.to_string()),
    }
}

} // verus!
