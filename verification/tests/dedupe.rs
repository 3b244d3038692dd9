use soncollection::dedupe::{dhash, dhash_of_sample, hamming, hex_encode, is_plausible_edit, sha256_hex};
use soncollection::raster::Rgba;
use soncollection::storage::to_square;

fn rgba(img: image::RgbaImage) -> Rgba {
    Rgba { width: img.width(), height: img.height(), data: img.into_raw() }
}

fn gradient(w: u32, h: u32, shift: u8) -> image::RgbaImage {
    let mut img = image::RgbaImage::new(w, h);
    for (x, y, px) in img.enumerate_pixels_mut() {
        let v = ((x * 7 + y * 3) as u8).wrapping_add(shift);
        *px = image::Rgba([v, v.wrapping_mul(2), 90, 255]);
    }
    img
}

#[test]
fn same_bytes_hash_the_same() {
    assert_eq!(sha256_hex(b"a son"), sha256_hex(b"a son"));
}

#[test]
fn different_bytes_hash_differently() {
    assert_ne!(sha256_hex(b"a son"), sha256_hex(b"a different son"));
}

#[test]
fn identical_images_have_no_distance() {
    let a = rgba(gradient(200, 120, 0));
    assert_eq!(hamming(dhash(&a), dhash(&a)), 0);
    assert!(is_plausible_edit(&a, &a));
}

#[test]
fn removing_a_caption_still_counts_as_an_edit() {
    let base = gradient(200, 120, 0);
    let mut captioned = base.clone();
    for y in 96..120 {
        for x in 0..200 {
            captioned.put_pixel(x, y, image::Rgba([255, 255, 255, 255]));
        }
    }
    let (captioned, base) = (rgba(captioned), rgba(base));
    assert!(
        is_plausible_edit(&captioned, &base),
        "distance was {}",
        hamming(dhash(&to_square(&captioned)), dhash(&to_square(&base)))
    );
}

#[test]
fn a_different_picture_is_rejected() {
    let original = rgba(gradient(200, 120, 0));
    let mut other = image::RgbaImage::new(200, 120);
    for (x, y, px) in other.enumerate_pixels_mut() {
        let v = if (x / 8) % 2 == 0 { 20u8 } else { 235u8 };
        *px = image::Rgba([v, 255 - v, (y as u8).wrapping_mul(3), 255]);
    }
    let other = rgba(other);
    let d = hamming(dhash(&to_square(&original)), dhash(&to_square(&other)));
    assert!(!is_plausible_edit(&original, &other), "distance was only {d}");
}

#[test]
fn hash_is_64_hex_chars() {
    let h = sha256_hex(b"anything");
    assert_eq!(h.len(), 64);
    assert!(h.chars().all(|c| c.is_ascii_hexdigit()));
}

#[test]
fn sha256_of_the_empty_input_is_the_known_digest() {
    assert_eq!(sha256_hex(b""), "e3b0c44298fc1c149afbf4c8996fb92427ae41e4649b934ca495991b7852b855");
    assert_eq!(hex_encode(&[0, 15, 255]), "000fff");
}

#[test]
fn hamming_counts_differing_bits() {
    assert_eq!(hamming(0, u64::MAX), 64);
    assert_eq!(hamming(0b1010, 0b0110), 2);
}

#[test]
fn dhash_sets_a_bit_where_a_sample_is_brighter_than_its_right_neighbour() {
    let mut luma = vec![0u8; 72];
    luma[0] = 9;
    luma[9 * 7 + 7] = 5;
    assert_eq!(dhash_of_sample(&luma), 1 | (1 << 63));
    let rising: Vec<u8> = (0..72).map(|i| (i % 9) as u8).collect();
    assert_eq!(dhash_of_sample(&rising), 0);
}

#[test]
fn distance_is_zero_only_between_equal_hashes_and_obeys_the_triangle() {
    assert_eq!(hamming(0xdead_beef, 0xdead_beef), 0);
    assert_eq!(hamming(0, 1), 1);
    assert_eq!(hamming(0, u64::MAX), 64);
    let (a, b, c) = (0b1010u64, 0b0110u64, 0b0101u64);
    assert!(hamming(a, c) <= hamming(a, b) + hamming(b, c));
}

#[test]
fn an_image_is_a_plausible_edit_of_itself() {
    let a = rgba(gradient(300, 90, 17));
    assert!(is_plausible_edit(&a, &a.clone()));
}
