use soncollection::raster::Rgba;
use soncollection::storage::{
    decode, drop_alpha, local_path, orig_key, png_chunks, prepare_store, thumb_key, to_square, watermark_payload,
    after_write, Backend, DecodeError, LocalDisk, StoreAction, WriteStage, CANVAS, MAX_UPLOAD_BYTES,
};

fn rgba(img: image::RgbaImage) -> Rgba {
    Rgba { width: img.width(), height: img.height(), data: img.into_raw() }
}

fn blank(w: u32, h: u32) -> Rgba {
    rgba(image::RgbaImage::new(w, h))
}

#[test]
fn keys_are_derived_from_id_only() {
    assert_eq!(orig_key("abc"), "orig/abc.png");
    assert_eq!(thumb_key("abc"), "thumb/abc.jpg");
}

#[test]
fn oversized_input_is_rejected_before_decode() {
    let huge = vec![0u8; MAX_UPLOAD_BYTES + 1];
    match decode(&huge) {
        Err(DecodeError::TooBig(n)) => assert_eq!(n, MAX_UPLOAD_BYTES + 1),
        _ => panic!("an oversized upload was not refused as too big"),
    }
}

#[test]
fn garbage_is_not_an_image() {
    assert!(decode(b"definitely not a png").is_err());
}

#[test]
fn a_real_png_decodes_to_its_pixels() {
    let src = image::RgbaImage::from_pixel(3, 2, image::Rgba([1, 2, 3, 255]));
    let mut bytes = std::io::Cursor::new(Vec::new());
    image::DynamicImage::ImageRgba8(src.clone()).write_to(&mut bytes, image::ImageFormat::Png).unwrap();
    let img = decode(bytes.get_ref()).ok().expect("decodes");
    assert_eq!((img.width, img.height), (3, 2));
    assert_eq!(img.data, src.into_raw());
}

#[test]
fn decode_errors_say_what_went_wrong() {
    assert_eq!(DecodeError::TooManyPixels(50000, 50000).message().unwrap(), "50000x50000 is too many pixels");
    assert_eq!(DecodeError::Undecodable("bad".into()).message().unwrap(), "could not decode: bad");
    assert!(DecodeError::TooBig(1).message().is_none());
}

#[test]
fn every_shape_becomes_the_same_square() {
    for (w, h) in [(640, 360), (360, 640), (1024, 1024), (37, 5), (5, 37), (1, 1)] {
        let out = to_square(&blank(w, h));
        assert_eq!((out.width, out.height), (CANVAS, CANVAS), "{w}x{h} did not become {CANVAS}x{CANVAS}");
        assert_eq!(out.data.len(), (CANVAS * CANVAS * 4) as usize);
    }
}

#[test]
fn crop_keeps_the_middle() {
    let mut src = image::RgbaImage::from_pixel(600, 200, image::Rgba([0, 0, 0, 255]));
    for y in 0..200 {
        for x in 280..320 {
            src.put_pixel(x, y, image::Rgba([255, 0, 0, 255]));
        }
    }
    let out = to_square(&rgba(src));
    let at = ((CANVAS / 2 * CANVAS + CANVAS / 2) * 4) as usize;
    let centre = &out.data[at..at + 4];
    assert!(centre[0] > 200 && centre[1] < 60, "centre pixel was not the red stripe: {centre:?}");
}

#[test]
fn extreme_aspect_does_not_panic() {
    let out = to_square(&blank(1, 4000));
    assert_eq!((out.width, out.height), (CANVAS, CANVAS));
}

#[test]
fn local_paths_join_like_a_unix_path() {
    assert_eq!(local_path("uploads", "orig/x.png"), "uploads/orig/x.png");
    assert_eq!(local_path("uploads/", "orig/x.png"), "uploads/orig/x.png");
    assert_eq!(local_path("", "orig/x.png"), "orig/x.png");
    assert_eq!(local_path("uploads", "/etc/x"), "/etc/x");
}

#[test]
fn local_disk_names_and_addresses_its_files() {
    let disk = LocalDisk::new("uploads", "/uploads/");
    assert_eq!(disk.public_url("orig/x.png"), "/uploads/orig/x.png");
    assert_eq!(disk.name(), "local disk (uploads)");
}

#[test]
fn the_watermark_payload_is_the_prefix_then_the_id() {
    assert_eq!(watermark_payload("abc-123"), b"son-collection:v1:abc-123".to_vec());
}

#[test]
fn originals_carry_the_provenance_text() {
    let chunks = png_chunks("Sonion", Some("Ann"), "https://s/son/1");
    assert_eq!(
        chunks,
        vec![
            ("Title".to_string(), "Sonion".to_string()),
            ("Software".to_string(), "son collection (soncollection.com)".to_string()),
            ("Description".to_string(), "https://s/son/1".to_string()),
            ("Author".to_string(), "Ann".to_string()),
        ]
    );
    assert_eq!(png_chunks("t", None, "u").len(), 3);
}

#[test]
fn dropping_alpha_keeps_the_colour() {
    let img = Rgba { width: 2, height: 1, data: vec![1, 2, 3, 4, 5, 6, 7, 8] };
    assert_eq!(drop_alpha(&img), vec![1, 2, 3, 5, 6, 7]);
}

#[test]
fn stored_files_are_a_watermarked_png_and_a_small_jpeg() {
    let img = to_square(&blank(64, 64));
    let p = prepare_store(&img, "abc", "Sonion", None, "https://s/son/abc").ok().expect("encodes");
    assert_eq!(p.orig_key, "orig/abc.png");
    assert_eq!(p.thumb_key, "thumb/abc.jpg");
    assert_eq!((p.width, p.height), (CANVAS, CANVAS));
    assert_eq!(&p.orig_png[1..4], b"PNG");
    assert_eq!(&p.thumb_jpeg[0..2], &[0xFF, 0xD8]);
    let back = decode(&p.orig_png).ok().expect("the original reads back");
    assert_eq!(
        soncollection::watermark::extract(&back).as_deref(),
        Some(&b"son-collection:v1:abc"[..])
    );
    let thumb = image::load_from_memory(&p.thumb_jpeg).unwrap();
    assert_eq!((thumb.width(), thumb.height()), (480, 480));
}

#[test]
fn a_failed_thumbnail_takes_the_original_with_it() {
    assert_eq!(after_write(WriteStage::Original, true), StoreAction::WriteThumbnail);
    assert_eq!(after_write(WriteStage::Original, false), StoreAction::Fail);
    assert_eq!(after_write(WriteStage::Thumbnail, true), StoreAction::Done);
    assert_eq!(after_write(WriteStage::Thumbnail, false), StoreAction::DeleteOriginal);
}
