use std::io::Cursor;

use vtome::color::{ColorSpace, Range};
use vtome::still::{
    check_ceiling, frame_from_rgba, load_image_bytes, load_image_bytes_limited, DEFAULT_MAX_PIXELS,
};
use vtome::{Duration, Error, PixelFormat};

/// A small PNG, written by the same library that reads it — a fixture that
/// cannot drift from what the decoder expects.
fn png(width: u32, height: u32) -> Vec<u8> {
    let mut buffer = image::RgbaImage::new(width, height);

    for (x, y, pixel) in buffer.enumerate_pixels_mut() {
        *pixel = image::Rgba([(x * 60) as u8, (y * 60) as u8, 128, 255]);
    }

    let mut bytes = Vec::new();
    buffer
        .write_to(&mut Cursor::new(&mut bytes), image::ImageFormat::Png)
        .unwrap();
    bytes
}

#[test]
fn an_image_in_memory_loads_the_same_way() {
    let frame = load_image_bytes(&png(3, 3)).unwrap();

    assert_eq!((frame.width(), frame.height()), (3, 3));
}

#[test]
fn an_image_arrives_as_an_rgba_frame() {
    let frame = load_image_bytes(&png(4, 3)).unwrap();

    assert_eq!((frame.width(), frame.height()), (4, 3));
    assert_eq!(frame.format(), PixelFormat::Rgba8);
    assert_eq!(frame.byte_len(), 4 * 3 * 4);
    assert_eq!(frame.pts(), Duration::zero());
}

/// Stills are full-range sRGB; treating them as limited-range video is the
/// washed-out-photo bug.
#[test]
fn a_still_is_full_range_and_needs_no_matrix() {
    let frame = load_image_bytes(&png(2, 2)).unwrap();

    assert_eq!(frame.color(), ColorSpace::srgb());
    assert_eq!(frame.color().range, Range::Full);
}

#[test]
fn the_pixels_survive_the_trip() {
    let frame = load_image_bytes(&png(2, 2)).unwrap();
    let row = frame.row(0, 0).unwrap();

    assert_eq!(&row[..4], &[0, 0, 128, 255]);
    assert_eq!(&row[4..8], &[60, 0, 128, 255]);
}

#[test]
fn bytes_that_are_not_an_image_are_refused_rather_than_guessed_at() {
    let Err(Error::Unsupported { what }) = load_image_bytes(b"not a picture") else {
        panic!("that is not an image");
    };
    assert!(what.starts_with("not a readable image: "), "{what}");
}

#[test]
fn a_picture_past_the_ceiling_is_refused_from_its_header() {
    let Err(Error::Unsupported { what }) = check_ceiling("swatch.png", 64, 64, 100) else {
        panic!("64×64 is 4096 pixels, past a ceiling of 100");
    };

    assert!(what.contains("ceiling"), "{what}");
    assert_eq!(what, "swatch.png is 64×64 — 4096 pixels, past the 100 ceiling");
    assert!(check_ceiling("swatch.png", 10, 10, 100).is_ok());
    assert!(check_ceiling("huge.tiff", 16_384, 16_384, DEFAULT_MAX_PIXELS).is_ok());
    assert!(check_ceiling("huge.tiff", 16_385, 16_384, DEFAULT_MAX_PIXELS).is_err());
}

#[test]
fn samples_short_of_the_picture_are_refused() {
    assert!(matches!(
        frame_from_rgba(2, 2, vec![0; 15]),
        Err(Error::BadFrame { .. })
    ));
    assert!(frame_from_rgba(2, 2, vec![0; 16]).is_ok());
}

#[test]
fn a_file_past_the_ceiling_is_refused_before_it_is_decoded() {
    let Err(Error::Unsupported { what }) = load_image_bytes_limited("swatch.png", &png(8, 8), 63)
    else {
        panic!("8×8 is 64 pixels, past a ceiling of 63");
    };
    assert_eq!(what, "swatch.png is 8×8 — 64 pixels, past the 63 ceiling");

    let frame = load_image_bytes_limited("swatch.png", &png(8, 8), 64).unwrap();
    assert_eq!((frame.width(), frame.height()), (8, 8));
}

#[test]
fn a_file_that_is_not_an_image_is_named_in_the_refusal() {
    let Err(Error::Unsupported { what }) =
        load_image_bytes_limited("notes.txt", b"not a picture", DEFAULT_MAX_PIXELS)
    else {
        panic!("that is not an image");
    };
    assert!(what.starts_with("notes.txt: "), "{what}");
}

#[test]
fn a_damaged_image_is_refused_by_its_decoder() {
    let mut bytes = png(4, 4);
    bytes.truncate(40);
    let Err(Error::Unsupported { what }) =
        load_image_bytes_limited("cut.png", &bytes, DEFAULT_MAX_PIXELS)
    else {
        panic!("half a PNG does not decode");
    };
    assert!(what.starts_with("cut.png: "), "{what}");
}
