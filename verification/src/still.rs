//! Still images, down the same pipe as video.
//!
//! A photograph on a trapezoid should take the same code as a film on one, so a
//! loaded image becomes a [`Frame`] — full-range, identity matrix, one picture
//! at time zero — and everything downstream stops caring which it was.

use vstd::prelude::*;

use crate::color::{spec_srgb, ColorSpace};
use crate::error::{is_bad_frame, is_unsupported, Error, Result};
use crate::frame::{packed_planes, spec_packed_fault, Frame, FrameView, PixelFormat};
use crate::text::{decimal, push_decimal};
use crate::time::Duration;

verus! {

/// The largest picture that will be loaded without being asked twice.
///
/// A 16-bit TIFF from a scanner is easily 30 000 pixels on a side, which is
/// past what most GPUs will hold in one texture and past what a surprised
/// caller wants allocated.
pub const DEFAULT_MAX_PIXELS: u64 = 16_384 * 16_384;

/// An image file format as the image library names it.
#[verifier::external_type_specification]
#[verifier::external_body]
pub struct ExImageFormat(image::ImageFormat);

/// The format the image library finds from the signature at the start of some
/// bytes, or its description of why it found none.
pub uninterp spec fn guessed_format(bytes: Seq<u8>) -> core::result::Result<image::ImageFormat, Seq<char>>;

/// Which format some bytes are, by their signature (`image::guess_format`).
///
/// Trusted: the answer is the image library's for these bytes. The guess
/// compares the first bytes against a fixed table of signatures and consults
/// no registered hook, so the same bytes always give the same answer; which
/// answer is not stated.
#[verifier::external_body]
fn guess_image_format(bytes: &[u8]) -> (r: core::result::Result<image::ImageFormat, String>)
    ensures
        match r {
            Ok(format) => guessed_format(bytes@) == Ok::<image::ImageFormat, Seq<char>>(format),
            Err(text) => guessed_format(bytes@) == Err::<image::ImageFormat, Seq<char>>(text@),
        },
{
    image::guess_format(bytes).map_err(|error| error.to_string())
}

/// The width and height the header of some bytes states, read as `format`,
/// where the image library can read a header at all.
pub uninterp spec fn header_dimensions(bytes: Seq<u8>, format: image::ImageFormat) -> Option<(u32, u32)>;

/// Reads the picture size from the header alone, before any pixel is decoded
/// (`ImageReader::with_format` over the bytes, then `into_dimensions`).
///
/// Trusted: the answer is the image library's for these bytes read as this
/// format. With the format given, the reader builds its own decoder for it
/// and consults no registered hook, so the same bytes and format always give
/// the same answer; which answer is not stated. The library's reason for not
/// reading a header is dropped: a header that does not read is no ceiling.
#[verifier::external_body]
fn read_header_size(bytes: &[u8], format: image::ImageFormat) -> (r: Option<(u32, u32)>)
    ensures
        r == header_dimensions(bytes@, format),
{
    image::ImageReader::with_format(std::io::Cursor::new(bytes), format).into_dimensions().ok()
}

/// What the image library decodes some bytes to when read as `format`: the
/// picture's width, height and RGBA samples, or its description of why it
/// could not.
pub uninterp spec fn decoded_rgba(bytes: Seq<u8>, format: image::ImageFormat) -> core::result::Result<
    (u32, u32, Seq<u8>),
    Seq<char>,
>;

/// Decodes an image held in memory, in a known format, to 8-bit RGBA
/// (`image::load_from_memory_with_format`, then `to_rgba8`).
///
/// Trusted: the result is the image library's answer for these bytes read as
/// this format. With the format given, the reader builds its own decoder for
/// it and consults no registered hook, and it decodes under its default
/// limits, so the same bytes and format always give the same answer. What
/// that answer is for given bytes is the library's business and is not
/// stated; nor is it shown here that no malformed input makes a decoder
/// panic rather than report an error.
#[verifier::external_body]
fn decode_rgba(bytes: &[u8], format: image::ImageFormat) -> (r: core::result::Result<(u32, u32, Vec<u8>), String>)
    ensures
        match r {
            Ok((width, height, rgba)) => decoded_rgba(bytes@, format) == Ok::<
                (u32, u32, Seq<u8>),
                Seq<char>,
            >((width, height, rgba@)),
            Err(text) => decoded_rgba(bytes@, format) == Err::<(u32, u32, Seq<u8>), Seq<char>>(
                text@,
            ),
        },
{
    match image::load_from_memory_with_format(bytes, format) {
        Ok(decoded) => {
            let rgba = decoded.to_rgba8();
            let (width, height) = rgba.dimensions();
            Ok((width, height, rgba.into_raw()))
        },
        Err(error) => Err(error.to_string()),
    }
}

/// The frame a decoded picture becomes: RGBA8, sRGB and full range, at time
/// zero, with its rows end to end.
pub open spec fn spec_still_frame(width: u32, height: u32, rgba: Seq<u8>) -> FrameView {
    FrameView {
        width,
        height,
        format: PixelFormat::Rgba8,
        color: spec_srgb(),
        pts: 0,
        planes: packed_planes(PixelFormat::Rgba8, width, height),
        data: rgba,
    }
}

/// The common tail of every image load: RGBA8, full range, identity matrix, at
/// time zero.
///
/// # Errors
///
/// [`Error::BadFrame`] if the samples do not fill a picture of that size.
pub fn frame_from_rgba(width: u32, height: u32, rgba: Vec<u8>) -> (r: Result<Frame>)
    ensures
        match spec_packed_fault(width, height, PixelFormat::Rgba8, rgba@.len()) {
            Some(m) => r matches Err(e) && is_bad_frame(e, m),
            None => r matches Ok(frame) && frame@ == spec_still_frame(width, height, rgba@),
        },
{
    // sRGB and full range: a still is not video and does not carry video's
    // limited-range pedestal. Getting this wrong is what makes a PNG look
    // washed out next to the same picture in a browser.
    Frame::packed(width, height, PixelFormat::Rgba8, ColorSpace::srgb(), Duration::zero(), rgba)
}

/// What a decoded picture loads as: refused if its samples do not fill it,
/// and otherwise the still frame it makes.
pub open spec fn loads_as(r: Result<Frame>, width: u32, height: u32, rgba: Seq<u8>) -> bool {
    match spec_packed_fault(width, height, PixelFormat::Rgba8, rgba.len()) {
        Some(m) => r matches Err(e) && is_bad_frame(e, m),
        None => r matches Ok(frame) && frame@ == spec_still_frame(width, height, rgba),
    }
}

/// Decodes an image already in memory — from a bundle, or a network fetch.
///
/// The format comes from the bytes' own signature.
///
/// # Errors
///
/// [`Error::Unsupported`] if the bytes are not an image this build reads, and
/// [`Error::BadFrame`] if what they decode to is not a picture.
pub fn load_image_bytes(bytes: &[u8]) -> (r: Result<Frame>)
    ensures
        match guessed_format(bytes@) {
            Err(text) => r matches Err(e) && is_unsupported(e, "not a readable image: "@ + text),
            Ok(format) => match decoded_rgba(bytes@, format) {
                Err(text) => r matches Err(e) && is_unsupported(e, "not a readable image: "@ + text),
                Ok((width, height, rgba)) => loads_as(r, width, height, rgba),
            },
        },
{
    let decoded = match guess_image_format(bytes) {
        Ok(format) => decode_rgba(bytes, format),
        Err(text) => Err(text),
    };
    match decoded {
        Ok((width, height, rgba)) => frame_from_rgba(width, height, rgba),
        Err(text) => {
            let mut what = String::from_str("not a readable image: ");
            what.append(text.as_str());
            Err(Error::Unsupported { what })
        },
    }
}

/// Why a picture past the ceiling is refused.
pub open spec fn ceiling_message(shown: Seq<char>, width: u32, height: u32, max_pixels: u64) -> Seq<char> {
    shown + " is "@ + decimal(width as nat) + "×"@ + decimal(height as nat) + " — "@ + decimal(
        width as nat * height as nat,
    ) + " pixels, past the "@ + decimal(max_pixels as nat) + " ceiling"@
}

/// Refuses a picture of more than `max_pixels` pixels, from the dimensions its
/// header states, before anything is allocated for it. `shown` is how the file
/// is named in the message.
///
/// # Errors
///
/// [`Error::Unsupported`] if the picture is past the ceiling.
pub fn check_ceiling(shown: &str, width: u32, height: u32, max_pixels: u64) -> (r: Result<()>)
    ensures
        width as nat * height as nat > max_pixels ==> (r matches Err(e) && is_unsupported(
            e,
            ceiling_message(shown@, width, height, max_pixels),
        )),
        width as nat * height as nat <= max_pixels ==> r is Ok,
{
    proof {
        assert(width as nat * height as nat <= 0xFFFF_FFFF * 0xFFFF_FFFF) by (nonlinear_arith)
            requires
                width <= 0xFFFF_FFFFu32,
                height <= 0xFFFF_FFFFu32,
        ;
    }
    let pixels = width as u64 * height as u64;
    if pixels > max_pixels {
        let mut what = String::from_str(shown);
        what.append(" is ");
        push_decimal(&mut what, width as u64);
        what.append("×");
        push_decimal(&mut what, height as u64);
        what.append(" — ");
        push_decimal(&mut what, pixels);
        what.append(" pixels, past the ");
        push_decimal(&mut what, max_pixels);
        what.append(" ceiling");
        return Err(Error::Unsupported { what });
    }
    Ok(())
}

/// Loads an image file's bytes as an RGBA frame, refusing a picture past
/// `max_pixels` from the size its header states, before its pixels are
/// decoded. `shown` is how the file is named in a message.
///
/// The format comes from the bytes' own signature. A header that does not
/// read sets no ceiling; the decode that follows says what is wrong.
///
/// # Errors
///
/// [`Error::Unsupported`] if the bytes are not an image this build reads, or
/// the picture is past the ceiling; [`Error::BadFrame`] if what they decode to
/// is not a picture.
pub fn load_image_bytes_limited(shown: &str, bytes: &[u8], max_pixels: u64) -> (r: Result<Frame>)
    ensures
        match guessed_format(bytes@) {
            Err(text) => r matches Err(e) && is_unsupported(e, shown@ + ": "@ + text),
            Ok(format) => match header_dimensions(bytes@, format) {
                Some((w, h)) if w as nat * h as nat > max_pixels => r matches Err(e) && is_unsupported(
                    e,
                    ceiling_message(shown@, w, h, max_pixels),
                ),
                _ => match decoded_rgba(bytes@, format) {
                    Err(text) => r matches Err(e) && is_unsupported(e, shown@ + ": "@ + text),
                    Ok((width, height, rgba)) => loads_as(r, width, height, rgba),
                },
            },
        },
{
    let decoded = match guess_image_format(bytes) {
        Ok(format) => {
            // The dimensions come out of the header, so an absurd picture is
            // refused before its pixels are allocated rather than after.
            if let Some((width, height)) = read_header_size(bytes, format) {
                if let Err(e) = check_ceiling(shown, width, height, max_pixels) {
                    return Err(e);
                }
            }
            decode_rgba(bytes, format)
        },
        Err(text) => Err(text),
    };
    match decoded {
        Ok((width, height, rgba)) => frame_from_rgba(width, height, rgba),
        Err(text) => {
            let mut what = String::from_str(shown);
            what.append(": ");
            what.append(text.as_str());
            Err(Error::Unsupported { what })
        },
    }
}

} // verus!
