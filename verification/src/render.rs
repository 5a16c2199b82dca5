//! What the renderer decides before and after the GPU does its part.
//!
//! The GPU work itself — textures, the YUV-to-RGB pass, the corner pinning — is
//! done by the graphics layer around this crate. What is decided here is which
//! of its paths a pixel format needs and which formats it cannot draw yet,
//! whether a picture fits the device and can reuse the textures already made,
//! how rows are laid out on the way up, and how the padding that a readback
//! comes with is taken off again.

use vstd::prelude::*;

use crate::error::{is_unsupported, Error, Result};
use crate::frame::PixelFormat;
use crate::text::{decimal, push_decimal};

verus! {

/// The shader path a pixel format takes.
#[derive(Clone, Copy, Debug, PartialEq, Eq, Structural)]
pub enum Mode {
    /// One packed RGBA (or BGRA) texture, sampled as it is.
    Rgba,
    /// Three textures, Y, U and V, converted in the shader.
    Planar,
    /// Two textures, Y and interleaved UV, converted in the shader.
    BiPlanar,
}

/// Why a 10-bit picture is not drawn.
pub open spec fn ten_bit_message() -> Seq<char> {
    "10-bit P010 needs 16-bit textures and a shifted sample"@
}

/// Which shader path a pixel format takes.
///
/// # Errors
///
/// [`Error::Unsupported`] for 10-bit P010, which needs 16-bit textures and a
/// shifted sample that the shader does not do yet — saying so beats drawing
/// noise.
pub fn mode_for(format: PixelFormat) -> (r: Result<Mode>)
    ensures
        match format {
            PixelFormat::Rgba8 | PixelFormat::Bgra8 => r matches Ok(Mode::Rgba),
            PixelFormat::I420 | PixelFormat::I422 | PixelFormat::I444 => r matches Ok(Mode::Planar),
            PixelFormat::Nv12 => r matches Ok(Mode::BiPlanar),
            PixelFormat::P010 => r matches Err(Error::Unsupported { what }) && what@ == ten_bit_message(),
        },
{
    match format {
        PixelFormat::Rgba8 | PixelFormat::Bgra8 => Ok(Mode::Rgba),
        PixelFormat::I420 | PixelFormat::I422 | PixelFormat::I444 => Ok(Mode::Planar),
        PixelFormat::Nv12 => Ok(Mode::BiPlanar),
        PixelFormat::P010 => Err(
            Error::Unsupported {
                what: String::from_str("10-bit P010 needs 16-bit textures and a shifted sample"),
            },
        ),
    }
}

/// Why a picture is too large for the device.
pub open spec fn texture_limit_message(width: u32, height: u32, limit: u32) -> Seq<char> {
    decimal(width as nat) + "×"@ + decimal(height as nat) + " is past this device's "@ + decimal(
        limit as nat,
    ) + "-pixel texture limit"@
}

/// Whether `e` is a rendering failure, with this message.
pub open spec fn is_render_error(e: Error, message: Seq<char>) -> bool {
    e matches Error::Render { reason } && reason@ == message
}

/// What an upload of a `width` by `height` picture in `format` comes to,
/// given the device's texture limit and the shape of the textures already
/// made (`previous`, if any): refused for a format with no shader path,
/// refused for a picture past the limit on either side, and otherwise made,
/// reusing the textures exactly when the shape is the one they were made for.
///
/// # Errors
///
/// [`Error::Unsupported`] for a format with no shader path, checked before
/// anything else; [`Error::Render`] for a picture past the device's limit.
pub fn plan_upload(
    limit: u32,
    previous: Option<(u32, u32, PixelFormat)>,
    width: u32,
    height: u32,
    format: PixelFormat,
) -> (r: Result<bool>)
    ensures
        if format == PixelFormat::P010 {
            r matches Err(e) && is_unsupported(e, ten_bit_message())
        } else if width > limit || height > limit {
            r matches Err(e) && is_render_error(e, texture_limit_message(width, height, limit))
        } else {
            r == Ok::<bool, Error>(previous == Some((width, height, format)))
        },
{
    // Checked before anything is allocated: a format with no shader path
    // should fail on the way in, not once the textures exist.
    if let Err(e) = mode_for(format) {
        return Err(e);
    }
    if width > limit || height > limit {
        let mut reason = String::new();
        push_decimal(&mut reason, width as u64);
        reason.append("×");
        push_decimal(&mut reason, height as u64);
        reason.append(" is past this device's ");
        push_decimal(&mut reason, limit as u64);
        reason.append("-pixel texture limit");
        return Err(Error::Render { reason });
    }
    match previous {
        Some((w, h, f)) => Ok(w == width && h == height && f == format),
        None => Ok(false),
    }
}

/// How many bytes apart a plane's rows are handed to the GPU: the frame's own
/// stride, padding and all, but never less than a row of samples.
pub fn upload_pitch(stride: usize, row_bytes: usize) -> (n: usize)
    ensures
        n == if stride >= row_bytes { stride } else { row_bytes },
{
    if stride >= row_bytes {
        stride
    } else {
        row_bytes
    }
}

/// The alignment buffer-to-texture copies want rows on.
pub const ROW_ALIGNMENT: u32 = 256;

/// A row of `width` RGBA8 pixels, rounded up to the copy alignment.
pub open spec fn spec_padded_row_bytes(width: u32) -> nat {
    (((4 * width + 255) as nat) / 256) * 256
}

/// How long each row of an RGBA8 readback `width` pixels wide is: rows are
/// padded up to a multiple of [`ROW_ALIGNMENT`].
pub fn padded_row_bytes(width: u32) -> (n: u32)
    requires
        4 * width + 255 <= u32::MAX,
    ensures
        n == spec_padded_row_bytes(width),
        n % 256 == 0,
        4 * width <= n < 4 * width + 256,
{
    let unpadded = width * 4;
    let padded = (unpadded + (ROW_ALIGNMENT - 1)) / ROW_ALIGNMENT * ROW_ALIGNMENT;
    proof {
        let q = ((unpadded + 255) as nat) / 256;
        assert(q * 256 <= unpadded + 255 < q * 256 + 256);
        assert((q * 256) % 256 == 0) by (nonlinear_arith);
    }
    padded
}

/// The first `rows` rows of a padded readback, `row_len` bytes each, with
/// the padding up to each `pitch` dropped.
pub open spec fn unpadded(padded: Seq<u8>, row_len: nat, pitch: nat, rows: nat) -> Seq<u8>
    decreases rows,
{
    if rows == 0 {
        Seq::empty()
    } else {
        let start = (rows - 1) * pitch;
        unpadded(padded, row_len, pitch, (rows - 1) as nat) + padded.subrange(
            start as int,
            start + row_len,
        )
    }
}

/// Pixel by pixel, the rows without their padding are the rows with it:
/// byte `c` of row `r` is at `r * row_len + c` after, and `r * pitch + c`
/// before.
pub proof fn lemma_unpadded_bytes(padded: Seq<u8>, row_len: nat, pitch: nat, rows: nat)
    requires
        row_len <= pitch,
        pitch * rows <= padded.len(),
    ensures
        unpadded(padded, row_len, pitch, rows).len() == row_len * rows,
        forall|r: int, c: int|
            0 <= r < rows && 0 <= c < row_len ==> #[trigger] unpadded(padded, row_len, pitch, rows)[r
                * row_len + c] == padded[r * pitch + c],
    decreases rows,
{
    if rows > 0 {
        let last = (rows - 1) as nat;
        assert(pitch * last <= pitch * rows) by (nonlinear_arith)
            requires
                last <= rows,
        ;
        assert(pitch * last + pitch == pitch * rows) by (nonlinear_arith)
            requires
                last + 1 == rows,
        ;
        lemma_unpadded_bytes(padded, row_len, pitch, last);
        let before = unpadded(padded, row_len, pitch, last);
        let start = last * pitch;
        assert(start == pitch * last) by (nonlinear_arith)
            requires
                start == last * pitch,
        ;
        let row = padded.subrange(start as int, (start + row_len) as int);
        let all = unpadded(padded, row_len, pitch, rows);
        assert(all == before + row);
        assert(row_len * last + row_len == row_len * rows) by (nonlinear_arith)
            requires
                last + 1 == rows,
        ;
        assert forall|r: int, c: int| 0 <= r < rows && 0 <= c < row_len implies #[trigger] all[r
            * row_len + c] == padded[r * pitch + c] by {
            if r < last {
                assert(r * row_len + c < row_len * last) by (nonlinear_arith)
                    requires
                        r < last,
                        c < row_len,
                        0 <= r,
                        0 <= c,
                ;
                assert(all[r * row_len + c] == before[r * row_len + c]);
            } else {
                assert(r == last);
                assert(r * row_len == row_len * last) by (nonlinear_arith)
                    requires
                        r == last,
                ;
                assert(r * pitch == start) by (nonlinear_arith)
                    requires
                        r == last,
                        start == pitch * last,
                ;
                assert(all[r * row_len + c] == row[c]);
            }
        }
    }
}

/// The pixels of a readback `width` by `height`, with the padding at the end
/// of each `pitch`-byte row taken off.
pub fn unpad_rows(padded: &[u8], width: u32, height: u32, pitch: u32) -> (px: Vec<u8>)
    requires
        pitch >= 4 * width,
        padded@.len() >= pitch * height,
    ensures
        px@ == unpadded(padded@, 4 * width as nat, pitch as nat, height as nat),
        px@.len() == 4 * width * height,
        forall|r: int, c: int|
            0 <= r < height && 0 <= c < 4 * width ==> #[trigger] px@[r * (4 * width) + c]
                == padded@[r * pitch + c],
{
    let row_len: u32 = width * 4;
    let total = padded.len();
    let mut px: Vec<u8> = Vec::new();
    let mut row: u32 = 0;
    let mut start: usize = 0;
    while row < height
        invariant
            row <= height,
            row_len == 4 * width,
            row_len <= pitch,
            pitch * height <= padded@.len(),
            total == padded@.len(),
            start == pitch * row,
            px@ == unpadded(padded@, row_len as nat, pitch as nat, row as nat),
        decreases height - row,
    {
        assert(pitch * row + pitch <= pitch * height) by (nonlinear_arith)
            requires
                row < height,
        ;
        let mut c: u32 = 0;
        let ghost done = px@;
        while c < row_len
            invariant
                c <= row_len,
                row_len <= pitch,
                start + pitch <= padded@.len(),
                total == padded@.len(),
                px@ == done + padded@.subrange(start as int, start + c),
            decreases row_len - c,
        {
            px.push(padded[start + c as usize]);
            proof {
                assert(px@ =~= done + padded@.subrange(start as int, start + c + 1));
            }
            c = c + 1;
        }
        proof {
            assert(start == (row as nat) * (pitch as nat)) by (nonlinear_arith)
                requires
                    start == pitch * row,
            ;
        }
        start = start + pitch as usize;
        row = row + 1;
        proof {
            assert(start == pitch * row) by (nonlinear_arith)
                requires
                    start == pitch * (row - 1) + pitch,
            ;
        }
    }
    proof {
        lemma_unpadded_bytes(padded@, row_len as nat, pitch as nat, height as nat);
        assert(row_len * height == 4 * width * height) by (nonlinear_arith)
            requires
                row_len == 4 * width,
        ;
    }
    px
}

} // verus!
