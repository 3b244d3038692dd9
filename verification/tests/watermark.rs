use soncollection::raster::Rgba;
use soncollection::watermark::{bit_iter, bits_to_bytes, embed, extract};

fn blank(w: u32, h: u32) -> Rgba {
    let img = image::RgbaImage::from_pixel(w, h, image::Rgba([120, 90, 200, 255]));
    Rgba { width: w, height: h, data: img.into_raw() }
}

#[test]
fn round_trips_a_short_payload() {
    let img = blank(64, 64);
    let marked = embed(&img, b"son-collection:v1:abc-123");
    assert_eq!(extract(&marked).as_deref(), Some(&b"son-collection:v1:abc-123"[..]));
}

#[test]
fn is_invisible_at_full_byte_resolution() {
    let img = blank(64, 64);
    let marked = embed(&img, b"son-collection:v1:abc-123");
    for (a, b) in img.data.iter().zip(marked.data.iter()) {
        assert!(a.abs_diff(*b) <= 1);
    }
}

#[test]
fn skips_rather_than_panics_when_payload_does_not_fit() {
    let img = blank(2, 2);
    let huge_payload = vec![0u8; 100];
    let marked = embed(&img, &huge_payload);
    assert_eq!(marked.data, img.data);
    assert_eq!((marked.width, marked.height), (2, 2));
}

#[test]
fn extract_on_an_unmarked_image_does_not_panic() {
    let img = blank(8, 8);
    let _ = extract(&img);
}

#[test]
fn bits_go_most_significant_first_and_pack_back() {
    assert_eq!(bit_iter(&[0b1000_0001]), vec![1, 0, 0, 0, 0, 0, 0, 1]);
    assert_eq!(bits_to_bytes(&[1, 0, 0, 0, 0, 0, 0, 1, 1, 1]), vec![0b1000_0001, 0b11]);
}
