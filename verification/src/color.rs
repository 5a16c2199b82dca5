//! Colour metadata.
//!
//! This is not garnish. A frame decoded as BT.709 and drawn as BT.601 is
//! visibly wrong, and a limited-range frame drawn as full range is the
//! washed-out look that gets blamed on the camera. The decoder knows these;
//! carrying them to the shader is the whole job of this module.

use vstd::prelude::*;

verus! {

/// The chromaticities the encoder mastered in.
#[derive(Clone, Copy, Debug, Default, PartialEq, Eq, Hash, Structural)]
#[non_exhaustive]
pub enum Primaries {
    /// Rec. 709 — HD, and what sRGB shares.
    #[default]
    Bt709,
    /// Rec. 601 525-line — NTSC-era SD.
    Bt601_525,
    /// Rec. 601 625-line — PAL-era SD.
    Bt601_625,
    /// Rec. 2020 — UHD and HDR.
    Bt2020,
}

/// The transfer function: how code values relate to light.
#[derive(Clone, Copy, Debug, Default, PartialEq, Eq, Hash, Structural)]
#[non_exhaustive]
pub enum Transfer {
    /// Rec. 709's curve, which is what nearly all SDR video carries.
    #[default]
    Bt709,
    /// sRGB's curve. Close to 709 but not identical; still images use it.
    Srgb,
    /// SMPTE ST 2084 (PQ) — HDR10.
    Pq,
    /// Hybrid log-gamma — broadcast HDR.
    Hlg,
}

impl Transfer {
    /// Whether this is a high-dynamic-range curve.
    pub fn is_hdr(self) -> (b: bool)
        ensures
            b == (self is Pq || self is Hlg),
    {
        match self {
            Transfer::Pq | Transfer::Hlg => true,
            _ => false,
        }
    }
}

/// Which luma coefficients the encoder used to make Y from RGB.
#[derive(Clone, Copy, Debug, Default, PartialEq, Eq, Hash, Structural)]
#[non_exhaustive]
pub enum Matrix {
    /// Rec. 709. HD's default.
    #[default]
    Bt709,
    /// Rec. 601. SD's default.
    Bt601,
    /// Rec. 2020 non-constant luminance. UHD's default.
    Bt2020Ncl,
    /// No conversion: the planes are already G, B, R.
    Identity,
}

/// Whether the samples use the whole numeric range or the broadcast subset.
#[derive(Clone, Copy, Debug, Default, PartialEq, Eq, Hash, Structural)]
pub enum Range {
    /// 16..=235 luma, 16..=240 chroma at 8 bits. The default for video, and the
    /// one people forget.
    #[default]
    Limited,
    /// 0..=255 at 8 bits. The default for stills and screen capture.
    Full,
}

/// Everything needed to turn a frame's samples into light, in one place.
#[derive(Clone, Copy, Debug, PartialEq, Eq, Hash, Structural)]
pub struct ColorSpace {
    /// The chromaticities.
    pub primaries: Primaries,
    /// The transfer curve.
    pub transfer: Transfer,
    /// The luma coefficients.
    pub matrix: Matrix,
    /// Full or limited.
    pub range: Range,
}

/// HD video: Rec. 709 throughout, limited range.
pub open spec fn spec_default_color() -> ColorSpace {
    ColorSpace {
        primaries: Primaries::Bt709,
        transfer: Transfer::Bt709,
        matrix: Matrix::Bt709,
        range: Range::Limited,
    }
}

/// What a picture of this size is assumed to be when nothing says otherwise:
/// SD on 601 (625-line primaries at 576 and 288 lines), UHD on 2020, the rest
/// on 709; limited range and the 709 curve throughout.
pub open spec fn spec_guess_for(width: u32, height: u32) -> ColorSpace {
    let (primaries, matrix) = if height <= 576 {
        (
            if height == 576 || height == 288 {
                Primaries::Bt601_625
            } else {
                Primaries::Bt601_525
            },
            Matrix::Bt601,
        )
    } else if width >= 3840 || height >= 2160 {
        (Primaries::Bt2020, Matrix::Bt2020Ncl)
    } else {
        (Primaries::Bt709, Matrix::Bt709)
    };
    ColorSpace { primaries, transfer: Transfer::Bt709, matrix, range: Range::Limited }
}

/// A still image: sRGB, full range, no matrix.
pub open spec fn spec_srgb() -> ColorSpace {
    ColorSpace {
        primaries: Primaries::Bt709,
        transfer: Transfer::Srgb,
        matrix: Matrix::Identity,
        range: Range::Full,
    }
}

impl Default for ColorSpace {
    /// HD video's colour: Rec. 709, limited range.
    fn default() -> (c: ColorSpace)
        ensures
            c == spec_default_color(),
    {
        ColorSpace {
            primaries: Primaries::Bt709,
            transfer: Transfer::Bt709,
            matrix: Matrix::Bt709,
            range: Range::Limited,
        }
    }
}

impl ColorSpace {
    /// What a frame of this size is, when the file does not say.
    ///
    /// Files with no colour metadata are common, and guessing by resolution is
    /// what every player does: SD was made on 601, HD on 709, UHD increasingly
    /// on 2020. Anything the container *does* state overrides this.
    pub fn guess_for(width: u32, height: u32) -> (c: ColorSpace)
        ensures
            c == spec_guess_for(width, height),
    {
        let (primaries, matrix) = if height <= 576 {
            // The 525/625 split is the old NTSC/PAL line count.
            let primaries = if height == 576 || height == 288 {
                Primaries::Bt601_625
            } else {
                Primaries::Bt601_525
            };
            (primaries, Matrix::Bt601)
        } else if width >= 3840 || height >= 2160 {
            (Primaries::Bt2020, Matrix::Bt2020Ncl)
        } else {
            (Primaries::Bt709, Matrix::Bt709)
        };
        ColorSpace { primaries, transfer: Transfer::Bt709, matrix, range: Range::Limited }
    }

    /// What a still image is: sRGB, full range, no chroma subsampling to undo.
    pub fn srgb() -> (c: ColorSpace)
        ensures
            c == spec_srgb(),
    {
        ColorSpace {
            primaries: Primaries::Bt709,
            transfer: Transfer::Srgb,
            matrix: Matrix::Identity,
            range: Range::Full,
        }
    }
}

/// Guessing by resolution: SD (576 lines or fewer) was made on BT.601, with
/// the PAL primaries for 576- and 288-line pictures and the NTSC ones
/// otherwise; UHD (3840 wide or 2160 tall, or more) on BT.2020; and everything
/// between — 720p, 1080p — on BT.709. A guess is always limited range with
/// the BT.709 curve, and its matrix always belongs to its primaries.
pub proof fn lemma_guess_by_resolution(width: u32, height: u32)
    ensures
        height <= 576 ==> spec_guess_for(width, height).matrix == Matrix::Bt601,
        height <= 576 && (height == 576 || height == 288) ==> spec_guess_for(width, height).primaries
            == Primaries::Bt601_625,
        height <= 576 && height != 576 && height != 288 ==> spec_guess_for(width, height).primaries
            == Primaries::Bt601_525,
        576 < height < 2160 && width < 3840 ==> spec_guess_for(width, height).primaries
            == Primaries::Bt709 && spec_guess_for(width, height).matrix == Matrix::Bt709,
        height > 576 && (width >= 3840 || height >= 2160) ==> spec_guess_for(width, height).primaries
            == Primaries::Bt2020 && spec_guess_for(width, height).matrix == Matrix::Bt2020Ncl,
        spec_guess_for(width, height).transfer == Transfer::Bt709,
        spec_guess_for(width, height).range == Range::Limited,
        (spec_guess_for(width, height).matrix == Matrix::Bt601) <==> (spec_guess_for(
            width,
            height,
        ).primaries == Primaries::Bt601_525 || spec_guess_for(width, height).primaries
            == Primaries::Bt601_625),
        (spec_guess_for(width, height).matrix == Matrix::Bt709) <==> (spec_guess_for(
            width,
            height,
        ).primaries == Primaries::Bt709),
{
}

/// A taller picture is never guessed at an older standard: once a height is
/// past SD, every taller one at the same width is too.
pub proof fn lemma_guess_never_goes_back(width: u32, low: u32, high: u32)
    requires
        low <= high,
        spec_guess_for(width, low).matrix != Matrix::Bt601,
    ensures
        spec_guess_for(width, high).matrix != Matrix::Bt601,
        spec_guess_for(width, low).matrix == Matrix::Bt2020Ncl ==> spec_guess_for(width, high).matrix
            == Matrix::Bt2020Ncl,
{
}

} // verus!
