//! One decoded picture, and the pool that stops decoding from allocating.
//!
//! Frames stay in whatever the decoder produced — usually planar YUV with the
//! chroma at half resolution — all the way to the shader. Converting to RGBA on
//! the CPU would triple the bytes crossing the bus and burn a core doing what
//! the GPU does for free.

use std::sync::Arc;

use vstd::prelude::*;

use crate::color::ColorSpace;
use crate::error::{is_bad_frame, Error, Result};
use crate::text::{decimal, push_decimal};
use crate::time::Duration;

verus! {

/// How the samples are laid out.
#[derive(Clone, Copy, Debug, PartialEq, Eq, Hash, Structural)]
#[non_exhaustive]
pub enum PixelFormat {
    /// Planar Y, U, V with chroma at half width and half height. What almost
    /// every consumer video decodes to.
    I420,
    /// Planar, chroma at half width and full height.
    I422,
    /// Planar, chroma at full resolution.
    I444,
    /// Y plane then interleaved UV, half width and half height. What the
    /// hardware decoders hand back.
    Nv12,
    /// NV12 at 10 bits, each sample in the top bits of a 16-bit word.
    P010,
    /// Packed 8-bit RGBA. Still images, and anything already converted.
    Rgba8,
    /// Packed 8-bit BGRA, which is what several platform surfaces want.
    Bgra8,
}

/// How many planes a format has.
pub open spec fn spec_plane_count(f: PixelFormat) -> nat {
    match f {
        PixelFormat::I420 | PixelFormat::I422 | PixelFormat::I444 => 3,
        PixelFormat::Nv12 | PixelFormat::P010 => 2,
        PixelFormat::Rgba8 | PixelFormat::Bgra8 => 1,
    }
}

/// Bytes one sample takes.
pub open spec fn spec_bytes_per_sample(f: PixelFormat) -> nat {
    if f is P010 {
        2
    } else {
        1
    }
}

/// Samples per pixel within one plane.
pub open spec fn spec_samples_per_pixel(f: PixelFormat, plane: nat) -> nat {
    if f is Rgba8 || f is Bgra8 {
        4
    } else if (f is Nv12 || f is P010) && plane == 1 {
        2
    } else {
        1
    }
}

/// Chroma subsampling, as right-shifts of the luma dimensions.
pub open spec fn spec_chroma_shift(f: PixelFormat) -> (u32, u32) {
    match f {
        PixelFormat::I420 | PixelFormat::Nv12 | PixelFormat::P010 => (1, 1),
        PixelFormat::I422 => (1, 0),
        _ => (0, 0),
    }
}

/// Half of `x`, rounded up.
pub open spec fn half_up(x: u32) -> u32 {
    (x / 2 + x % 2) as u32
}

/// `x` shifted right by `shift` (0 or 1), rounding up.
pub open spec fn shrink(x: u32, shift: u32) -> u32 {
    if shift == 0 {
        x
    } else {
        half_up(x)
    }
}

/// The size of one plane in samples, for a picture of this size; chroma
/// rounds up.
pub open spec fn spec_plane_dimensions(f: PixelFormat, plane: nat, width: u32, height: u32) -> Option<(u32, u32)> {
    if plane >= spec_plane_count(f) {
        None
    } else if plane == 0 {
        Some((width, height))
    } else {
        Some((shrink(width, spec_chroma_shift(f).0), shrink(height, spec_chroma_shift(f).1)))
    }
}

/// Width in samples of a plane that exists.
pub open spec fn plane_width(f: PixelFormat, plane: nat, width: u32) -> nat {
    if plane == 0 {
        width as nat
    } else {
        shrink(width, spec_chroma_shift(f).0) as nat
    }
}

/// Height in rows of a plane that exists.
pub open spec fn plane_height(f: PixelFormat, plane: nat, height: u32) -> nat {
    if plane == 0 {
        height as nat
    } else {
        shrink(height, spec_chroma_shift(f).1) as nat
    }
}

/// The bytes one row of a plane holds, padding aside.
pub open spec fn row_bytes(f: PixelFormat, plane: nat, width: u32) -> nat {
    plane_width(f, plane, width) * spec_samples_per_pixel(f, plane) * spec_bytes_per_sample(f)
}

/// The name a format is printed by.
pub open spec fn spec_format_name(f: PixelFormat) -> Seq<char> {
    match f {
        PixelFormat::I420 => "I420"@,
        PixelFormat::I422 => "I422"@,
        PixelFormat::I444 => "I444"@,
        PixelFormat::Nv12 => "Nv12"@,
        PixelFormat::P010 => "P010"@,
        PixelFormat::Rgba8 => "Rgba8"@,
        PixelFormat::Bgra8 => "Bgra8"@,
    }
}

impl PixelFormat {
    /// How many separately-addressed planes there are.
    pub fn plane_count(self) -> (n: usize)
        ensures
            n == spec_plane_count(self),
    {
        match self {
            PixelFormat::I420 | PixelFormat::I422 | PixelFormat::I444 => 3,
            PixelFormat::Nv12 | PixelFormat::P010 => 2,
            PixelFormat::Rgba8 | PixelFormat::Bgra8 => 1,
        }
    }

    /// Bits per sample, per component.
    pub fn bit_depth(self) -> (bits: u32)
        ensures
            bits == (if self is P010 {
                10u32
            } else {
                8u32
            }),
    {
        match self {
            PixelFormat::P010 => 10,
            _ => 8,
        }
    }

    /// Bytes each sample occupies, which is not the same as its bit depth: a
    /// 10-bit sample is stored in two bytes.
    pub fn bytes_per_sample(self) -> (n: usize)
        ensures
            n == spec_bytes_per_sample(self),
    {
        match self {
            PixelFormat::P010 => 2,
            _ => 1,
        }
    }

    /// Whether the planes are luma and chroma rather than colour.
    pub fn is_yuv(self) -> (b: bool)
        ensures
            b == !(self is Rgba8 || self is Bgra8),
    {
        match self {
            PixelFormat::Rgba8 | PixelFormat::Bgra8 => false,
            _ => true,
        }
    }

    /// How far chroma is subsampled, as right-shifts of the luma dimensions.
    ///
    /// `(1, 1)` for 4:2:0 — half width, half height. `(0, 0)` for anything with
    /// full-resolution colour.
    pub fn chroma_shift(self) -> (s: (u32, u32))
        ensures
            s == spec_chroma_shift(self),
    {
        match self {
            PixelFormat::I420 | PixelFormat::Nv12 | PixelFormat::P010 => (1, 1),
            PixelFormat::I422 => (1, 0),
            _ => (0, 0),
        }
    }

    /// The size of one plane in samples, for a picture of this size.
    ///
    /// Chroma dimensions round *up*: a 1921-pixel-wide 4:2:0 picture has 961
    /// chroma columns, not 960, and rounding down loses the last one.
    pub fn plane_dimensions(self, plane: usize, width: u32, height: u32) -> (d: Option<(u32, u32)>)
        ensures
            d == spec_plane_dimensions(self, plane as nat, width, height),
    {
        if plane >= self.plane_count() {
            return None;
        }
        // Plane 0 is always full resolution; on packed formats it is the only
        // one, and its "width" counts pixels rather than samples.
        if plane == 0 {
            return Some((width, height));
        }
        let (h_shift, v_shift) = self.chroma_shift();
        let chroma_width = if h_shift == 0 {
            width
        } else {
            width / 2 + width % 2
        };
        let chroma_height = if v_shift == 0 {
            height
        } else {
            height / 2 + height % 2
        };
        Some((chroma_width, chroma_height))
    }

    /// Samples per pixel within one plane: 4 for packed RGBA, 2 for NV12's
    /// interleaved chroma, 1 for a planar plane.
    pub fn samples_per_pixel(self, plane: usize) -> (n: usize)
        ensures
            n == spec_samples_per_pixel(self, plane as nat),
    {
        match (self, plane) {
            (PixelFormat::Rgba8, _) | (PixelFormat::Bgra8, _) => 4,
            (PixelFormat::Nv12, 1) | (PixelFormat::P010, 1) => 2,
            _ => 1,
        }
    }

    /// The tightest stride for a plane — no padding at all. A plane the format
    /// does not have is measured as if it were the first.
    pub fn tight_stride(self, plane: usize, width: u32) -> (n: usize)
        requires
            width as nat * 8 <= usize::MAX,
        ensures
            n == (if (plane as nat) < spec_plane_count(self) {
                row_bytes(self, plane as nat, width)
            } else {
                width as nat * spec_samples_per_pixel(self, plane as nat) * spec_bytes_per_sample(self)
            }),
    {
        let plane_width = match self.plane_dimensions(plane, width, 1) {
            Some((w, _)) => w,
            None => width,
        };
        proof {
            assert(plane_width <= width);
            assert(plane_width as nat * spec_samples_per_pixel(self, plane as nat)
                * spec_bytes_per_sample(self) <= width as nat * 8) by (nonlinear_arith)
                requires
                    plane_width <= width,
                    spec_samples_per_pixel(self, plane as nat) <= 4,
                    spec_bytes_per_sample(self) <= 2,
            ;
        }
        plane_width as usize * self.samples_per_pixel(plane) * self.bytes_per_sample()
    }

    /// The name the format is printed by in messages.
    pub fn name(self) -> (s: &'static str)
        ensures
            s@ == spec_format_name(self),
    {
        match self {
            PixelFormat::I420 => "I420",
            PixelFormat::I422 => "I422",
            PixelFormat::I444 => "I444",
            PixelFormat::Nv12 => "Nv12",
            PixelFormat::P010 => "P010",
            PixelFormat::Rgba8 => "Rgba8",
            PixelFormat::Bgra8 => "Bgra8",
        }
    }
}

/// The bytes one row of a plane holds, as the frame code computes it.
fn row_bytes_of(format: PixelFormat, plane: usize, width: u32) -> (n: u64)
    requires
        (plane as nat) < spec_plane_count(format),
    ensures
        n == row_bytes(format, plane as nat, width),
        n <= width as nat * 8,
{
    let plane_width: u32 = match format.plane_dimensions(plane, width, 1) {
        Some((w, _)) => w,
        None => width,
    };
    let spp = format.samples_per_pixel(plane) as u64;
    let bps = format.bytes_per_sample() as u64;
    proof {
        assert(plane_width <= width);
        assert(plane_width as nat * spp * bps <= width as nat * 8) by (nonlinear_arith)
            requires
                plane_width <= width,
                spp <= 4,
                bps <= 2,
        ;
    }
    plane_width as u64 * spp * bps
}

/// Where one plane sits in a frame's buffer.
#[derive(Clone, Copy, Debug, PartialEq, Eq, Structural)]
pub struct Plane {
    /// Byte offset from the start of the frame's data.
    pub offset: usize,
    /// Bytes between the start of one row and the start of the next.
    ///
    /// Decoders align rows for their own reasons, so this is almost never the
    /// row's width in bytes. Treating the two as the same is the classic way to
    /// get a picture that shears diagonally.
    pub stride: usize,
}

/// Where the last byte of a plane's last row falls, plus one.
pub open spec fn plane_span(f: PixelFormat, index: nat, width: u32, height: u32, p: Plane) -> nat {
    (p.stride as nat) * ((plane_height(f, index, height) - 1) as nat) + row_bytes(f, index, width)
        + p.offset as nat
}

/// What is wrong with one plane of a frame, if anything.
pub open spec fn plane_fault(
    f: PixelFormat,
    index: nat,
    width: u32,
    height: u32,
    p: Plane,
    data_len: nat,
) -> Option<Seq<char>> {
    if p.stride < row_bytes(f, index, width) {
        Some("plane "@ + decimal(index) + ": stride "@ + decimal(p.stride as nat)
            + " is shorter than a "@ + decimal(row_bytes(f, index, width)) + "-byte row"@)
    } else if plane_span(f, index, width, height, p) > usize::MAX {
        Some("plane "@ + decimal(index) + ": the layout overflows a usize"@)
    } else if plane_span(f, index, width, height, p) > data_len {
        Some("plane "@ + decimal(index) + " runs to byte "@ + decimal(
            plane_span(f, index, width, height, p),
        ) + " of a "@ + decimal(data_len) + "-byte buffer"@)
    } else {
        None
    }
}

/// The first plane from `index` on with something wrong with it.
pub open spec fn first_plane_fault(
    f: PixelFormat,
    width: u32,
    height: u32,
    planes: Seq<Plane>,
    data_len: nat,
    index: nat,
) -> Option<Seq<char>>
    decreases planes.len() - index,
{
    if index >= planes.len() {
        None
    } else {
        match plane_fault(f, index, width, height, planes[index as int], data_len) {
            Some(m) => Some(m),
            None => first_plane_fault(f, width, height, planes, data_len, index + 1),
        }
    }
}

/// Why a picture of no pixels is refused.
pub open spec fn no_pixels_message(width: u32, height: u32) -> Seq<char> {
    "a "@ + decimal(width as nat) + "×"@ + decimal(height as nat) + " picture has no pixels"@
}

/// What is wrong with a frame described this way, or nothing.
pub open spec fn spec_frame_fault(
    width: u32,
    height: u32,
    f: PixelFormat,
    planes: Seq<Plane>,
    data_len: nat,
) -> Option<Seq<char>> {
    if width == 0 || height == 0 {
        Some(no_pixels_message(width, height))
    } else if planes.len() != spec_plane_count(f) {
        Some(spec_format_name(f) + " has "@ + decimal(spec_plane_count(f)) + " planes, "@
            + decimal(planes.len()) + " given"@)
    } else {
        first_plane_fault(f, width, height, planes, data_len, 0)
    }
}

/// A frame as the contracts see it.
pub struct FrameView {
    /// Width in pixels.
    pub width: u32,
    /// Height in pixels.
    pub height: u32,
    /// The sample layout.
    pub format: PixelFormat,
    /// What the samples mean.
    pub color: ColorSpace,
    /// When it is due, in nanoseconds.
    pub pts: nat,
    /// Where each plane is.
    pub planes: Seq<Plane>,
    /// The whole buffer.
    pub data: Seq<u8>,
}

/// A decoded picture.
///
/// The data is behind an [`Arc`] so a frame can be handed to a renderer, an
/// encoder, and a callback at once without copying — none of them mutate it.
#[derive(Debug)]
pub struct Frame {
    width: u32,
    height: u32,
    format: PixelFormat,
    color: ColorSpace,
    pts: Duration,
    planes: Vec<Plane>,
    data: Arc<Vec<u8>>,
}

/// Another handle on the same buffer (`Arc::clone`): no bytes are copied.
///
/// Trusted: the handle points at the allocation it was cloned from, so it
/// reads as the same bytes.
#[verifier::external_body]
fn share(data: &Arc<Vec<u8>>) -> (shared: Arc<Vec<u8>>)
    ensures
        shared@ == data@,
{
    Arc::clone(data)
}

/// The buffer itself, if no other handle on it is left (`Arc::try_unwrap`).
///
/// Trusted: `Ok` carries the very buffer the handle pointed at. Which of the
/// two comes back depends on what else holds the buffer at the time, which
/// nothing here states.
#[verifier::external_body]
fn take_if_sole(data: Arc<Vec<u8>>) -> (r: core::result::Result<Vec<u8>, Arc<Vec<u8>>>)
    ensures
        r matches Ok(buffer) ==> buffer@ == data@,
{
    Arc::try_unwrap(data)
}

impl View for Frame {
    type V = FrameView;

    closed spec fn view(&self) -> FrameView {
        FrameView {
            width: self.width,
            height: self.height,
            format: self.format,
            color: self.color,
            pts: self.pts@,
            planes: self.planes@,
            data: self.data@,
        }
    }
}

impl Frame {
    /// Every frame describes a picture its buffer holds.
    #[verifier::type_invariant]
    spec fn well_formed(self) -> bool {
        spec_frame_fault(self.width, self.height, self.format, self.planes@, self.data@.len())
            is None
    }

    /// A frame over `data`, with the planes laid out end to end and no padding.
    ///
    /// # Errors
    ///
    /// [`Error::BadFrame`] if `data` is not the size that layout implies, or
    /// either dimension is zero.
    pub fn packed(
        width: u32,
        height: u32,
        format: PixelFormat,
        color: ColorSpace,
        pts: Duration,
        data: Vec<u8>,
    ) -> (r: Result<Frame>)
        ensures
            match spec_packed_fault(width, height, format, data@.len()) {
                Some(m) => r matches Err(e) && is_bad_frame(e, m),
                None => r matches Ok(frame) && frame@ == (FrameView {
                    width,
                    height,
                    format,
                    color,
                    pts: pts@,
                    planes: packed_planes(format, width, height),
                    data: data@,
                }),
            },
    {
        let (planes, needed) = match packed_layout(format, width, height) {
            Ok(layout) => layout,
            Err(e) => return Err(e),
        };
        if data.len() != needed {
            let mut reason = String::new();
            push_decimal(&mut reason, width as u64);
            reason.append("×");
            push_decimal(&mut reason, height as u64);
            reason.append(" ");
            reason.append(format.name());
            reason.append(" needs ");
            push_decimal(&mut reason, needed as u64);
            reason.append(" bytes, got ");
            push_decimal(&mut reason, data.len() as u64);
            proof {
                assert(reason@ =~= packed_size_message(width, height, format, needed as nat, data@.len()));
            }
            return Err(Error::BadFrame { reason });
        }
        proof {
            lemma_packed_planes_fit(format, width, height, data@.len());
        }
        Ok(Frame { width, height, format, color, pts, planes, data: Arc::new(data) })
    }

    /// A frame whose planes are where the decoder put them.
    ///
    /// # Errors
    ///
    /// [`Error::BadFrame`] if the plane count is wrong for the format, or any
    /// plane's last row runs past the end of `data`.
    pub fn with_planes(
        width: u32,
        height: u32,
        format: PixelFormat,
        color: ColorSpace,
        pts: Duration,
        planes: Vec<Plane>,
        data: Vec<u8>,
    ) -> (r: Result<Frame>)
        ensures
            match spec_frame_fault(width, height, format, planes@, data@.len()) {
                Some(m) => r matches Err(e) && is_bad_frame(e, m),
                None => r matches Ok(frame) && frame@ == (FrameView {
                    width,
                    height,
                    format,
                    color,
                    pts: pts@,
                    planes: planes@,
                    data: data@,
                }),
            },
    {
        if width == 0 || height == 0 {
            let mut reason = String::from_str("a ");
            push_decimal(&mut reason, width as u64);
            reason.append("×");
            push_decimal(&mut reason, height as u64);
            reason.append(" picture has no pixels");
            return Err(Error::BadFrame { reason });
        }
        let count = format.plane_count();
        if planes.len() != count {
            let mut reason = String::from_str(format.name());
            reason.append(" has ");
            push_decimal(&mut reason, count as u64);
            reason.append(" planes, ");
            push_decimal(&mut reason, planes.len() as u64);
            reason.append(" given");
            return Err(Error::BadFrame { reason });
        }
        let mut index: usize = 0;
        while index < count
            invariant
                count == planes@.len(),
                count == spec_plane_count(format),
                width > 0 && height > 0,
                index <= count,
                first_plane_fault(format, width, height, planes@, data@.len(), 0)
                    == first_plane_fault(format, width, height, planes@, data@.len(), index as nat),
            decreases count - index,
        {
            let plane = planes[index];
            let height_in_rows: u32 = match format.plane_dimensions(index, width, height) {
                Some((_, h)) => h,
                None => height,
            };
            let rows = row_bytes_of(format, index, width);
            if (plane.stride as u64) < rows {
                let mut reason = String::from_str("plane ");
                push_decimal(&mut reason, index as u64);
                reason.append(": stride ");
                push_decimal(&mut reason, plane.stride as u64);
                reason.append(" is shorter than a ");
                push_decimal(&mut reason, rows);
                reason.append("-byte row");
                return Err(Error::BadFrame { reason });
            }
            // The last row needs `rows`, not a whole stride — a decoder is
            // entitled to end the buffer at the end of the picture.
            proof {
                assert(height_in_rows >= 1);
                let a = plane.stride as int;
                let b = (height_in_rows - 1) as int;
                assert(a * b <= 0x1_0000_0000_0000_0000 * 0x1_0000_0000) by (nonlinear_arith)
                    requires
                        0 <= a <= 0x1_0000_0000_0000_0000,
                        0 <= b <= 0x1_0000_0000,
                ;
            }
            let span: u128 = plane.stride as u128 * (height_in_rows - 1) as u128 + rows as u128
                + plane.offset as u128;
            if span > usize::MAX as u128 {
                let mut reason = String::from_str("plane ");
                push_decimal(&mut reason, index as u64);
                reason.append(": the layout overflows a usize");
                return Err(Error::BadFrame { reason });
            }
            if span > data.len() as u128 {
                let mut reason = String::from_str("plane ");
                push_decimal(&mut reason, index as u64);
                reason.append(" runs to byte ");
                push_decimal(&mut reason, span as u64);
                reason.append(" of a ");
                push_decimal(&mut reason, data.len() as u64);
                reason.append("-byte buffer");
                return Err(Error::BadFrame { reason });
            }
            index = index + 1;
        }
        proof {
            assert(first_plane_fault(format, width, height, planes@, data@.len(), count as nat)
                is None);
        }
        Ok(Frame { width, height, format, color, pts, planes, data: Arc::new(data) })
    }

    /// Width in pixels.
    pub fn width(&self) -> (w: u32)
        ensures
            w == self@.width,
    {
        self.width
    }

    /// Height in pixels.
    pub fn height(&self) -> (h: u32)
        ensures
            h == self@.height,
    {
        self.height
    }

    /// The sample layout.
    pub fn format(&self) -> (f: PixelFormat)
        ensures
            f == self@.format,
    {
        self.format
    }

    /// What the samples mean.
    pub fn color(&self) -> (c: ColorSpace)
        ensures
            c == self@.color,
    {
        self.color
    }

    /// When this picture is due, from the start of the stream.
    pub fn pts(&self) -> (t: Duration)
        ensures
            t@ == self@.pts,
    {
        self.pts
    }

    /// Retimes the frame, for a player that offsets a stream against a master
    /// clock. Cheap: the data is shared, not copied.
    pub fn with_pts(&self, pts: Duration) -> (f: Frame)
        ensures
            f@ == (FrameView { pts: pts@, ..self@ }),
    {
        proof {
            use_type_invariant(self);
        }
        let mut planes: Vec<Plane> = Vec::new();
        let mut i: usize = 0;
        while i < self.planes.len()
            invariant
                i <= self.planes@.len(),
                planes@ == self.planes@.subrange(0, i as int),
            decreases self.planes@.len() - i,
        {
            planes.push(self.planes[i]);
            i = i + 1;
            proof {
                assert(planes@ =~= self.planes@.subrange(0, i as int));
            }
        }
        proof {
            assert(self.planes@.subrange(0, self.planes@.len() as int) =~= self.planes@);
        }
        Frame {
            width: self.width,
            height: self.height,
            format: self.format,
            color: self.color,
            pts,
            planes,
            data: share(&self.data),
        }
    }

    /// Where each plane is.
    pub fn planes(&self) -> (p: &[Plane])
        ensures
            p@ == self@.planes,
    {
        self.planes.as_slice()
    }

    /// One plane's bytes, from its offset to the end of its last row.
    pub fn plane_data(&self, plane: usize) -> (bytes: Option<&[u8]>)
        ensures
            match bytes {
                Some(b) => (plane as nat) < spec_plane_count(self@.format) && b@
                    == self@.data.subrange(
                    self@.planes[plane as int].offset as int,
                    plane_span(
                        self@.format,
                        plane as nat,
                        self@.width,
                        self@.height,
                        self@.planes[plane as int],
                    ) as int,
                ),
                None => (plane as nat) >= spec_plane_count(self@.format),
            },
    {
        proof {
            use_type_invariant(self);
            lemma_no_fault(self.format, self.width, self.height, self.planes@, self.data@.len(), 0);
        }
        if plane >= self.planes.len() {
            return None;
        }
        let descriptor = self.planes[plane];
        let height_in_rows: u32 = match self.format.plane_dimensions(plane, self.width, self.height) {
            Some((_, h)) => h,
            None => self.height,
        };
        let rows = row_bytes_of(self.format, plane, self.width) as usize;
        let total = self.data.len();
        proof {
            assert(descriptor == self.planes@[plane as int]);
            assert(height_in_rows as nat == plane_height(self.format, plane as nat, self.height));
            assert(plane_span(self.format, plane as nat, self.width, self.height, descriptor)
                <= total);
            assert(descriptor.stride as int * (height_in_rows as int - 1) + rows + descriptor.offset
                <= total);
        }
        let span = descriptor.stride * (height_in_rows as usize - 1) + rows;
        Some(vstd::slice::slice_subrange(self.data.as_slice(), descriptor.offset, descriptor.offset + span))
    }

    /// One row of one plane, without the padding a stride may add.
    pub fn row(&self, plane: usize, row: u32) -> (bytes: Option<&[u8]>)
        ensures
            match bytes {
                Some(b) => (plane as nat) < spec_plane_count(self@.format) && (row as nat)
                    < plane_height(self@.format, plane as nat, self@.height) && b@
                    == self@.data.subrange(
                    self@.planes[plane as int].offset + self@.planes[plane as int].stride * row,
                    self@.planes[plane as int].offset + self@.planes[plane as int].stride * row
                        + row_bytes(self@.format, plane as nat, self@.width),
                ),
                None => (plane as nat) >= spec_plane_count(self@.format) || (row as nat)
                    >= plane_height(self@.format, plane as nat, self@.height),
            },
    {
        proof {
            use_type_invariant(self);
            lemma_no_fault(self.format, self.width, self.height, self.planes@, self.data@.len(), 0);
        }
        if plane >= self.planes.len() {
            return None;
        }
        let descriptor = self.planes[plane];
        let height_in_rows: u32 = match self.format.plane_dimensions(plane, self.width, self.height) {
            Some((_, h)) => h,
            None => self.height,
        };
        if row >= height_in_rows {
            return None;
        }
        let rows = row_bytes_of(self.format, plane, self.width) as usize;
        let total = self.data.len();
        proof {
            assert(descriptor == self.planes@[plane as int]);
            assert(height_in_rows as nat == plane_height(self.format, plane as nat, self.height));
            assert(plane_span(self.format, plane as nat, self.width, self.height, descriptor)
                <= total);
            let s = descriptor.stride as int;
            assert(s * row <= s * (height_in_rows - 1)) by (nonlinear_arith)
                requires
                    s >= 0,
                    row <= height_in_rows - 1,
            ;
            assert(s * (height_in_rows as int - 1) + rows + descriptor.offset <= total);
        }
        let start = descriptor.offset + descriptor.stride * row as usize;
        Some(vstd::slice::slice_subrange(self.data.as_slice(), start, start + rows))
    }

    /// The whole buffer, planes and padding alike.
    pub fn data(&self) -> (d: &[u8])
        ensures
            d@ == self@.data,
    {
        self.data.as_slice()
    }

    /// How many bytes this frame holds, for accounting against a memory
    /// ceiling.
    pub fn byte_len(&self) -> (n: usize)
        ensures
            n == self@.data.len(),
    {
        self.data.len()
    }
}

impl Clone for Frame {
    /// Another frame over the same pixels: the buffer is shared, not copied.
    fn clone(&self) -> (f: Frame)
        ensures
            f@ == self@,
    {
        self.with_pts(self.pts)
    }
}

/// A frame with no fault found from `index` on has every such plane in bounds.
proof fn lemma_no_fault(
    f: PixelFormat,
    width: u32,
    height: u32,
    planes: Seq<Plane>,
    data_len: nat,
    index: nat,
)
    requires
        first_plane_fault(f, width, height, planes, data_len, index) is None,
    ensures
        forall|i: int|
            index <= i < planes.len() ==> planes[i].stride >= row_bytes(f, i as nat, width)
                && plane_span(f, i as nat, width, height, #[trigger] planes[i]) <= data_len,
    decreases planes.len() - index,
{
    if index < planes.len() {
        lemma_no_fault(f, width, height, planes, data_len, index + 1);
    }
}

/// Where plane `k` of a tightly packed frame starts: the planes before it,
/// end to end.
pub open spec fn packed_offset(f: PixelFormat, width: u32, height: u32, k: nat) -> nat
    decreases k,
{
    if k == 0 {
        0
    } else {
        packed_offset(f, width, height, (k - 1) as nat) + row_bytes(f, (k - 1) as nat, width)
            * plane_height(f, (k - 1) as nat, height)
    }
}

/// The bytes a tightly packed frame needs.
pub open spec fn packed_total(f: PixelFormat, width: u32, height: u32) -> nat {
    packed_offset(f, width, height, spec_plane_count(f))
}

/// The planes of a tightly packed frame.
pub open spec fn packed_planes(f: PixelFormat, width: u32, height: u32) -> Seq<Plane> {
    Seq::new(
        spec_plane_count(f),
        |k: int|
            Plane {
                offset: packed_offset(f, width, height, k as nat) as usize,
                stride: row_bytes(f, k as nat, width) as usize,
            },
    )
}

/// Why a tightly packed layout cannot be had, if it cannot.
pub open spec fn spec_layout_fault(f: PixelFormat, width: u32, height: u32) -> Option<Seq<char>> {
    if width == 0 || height == 0 {
        Some(no_pixels_message(width, height))
    } else if packed_total(f, width, height) > usize::MAX {
        Some(decimal(width as nat) + "×"@ + decimal(height as nat) + " "@ + spec_format_name(f)
            + " does not fit in memory"@)
    } else {
        None
    }
}

/// Why a buffer is not the size of a tightly packed frame.
pub open spec fn packed_size_message(
    width: u32,
    height: u32,
    f: PixelFormat,
    needed: nat,
    got: nat,
) -> Seq<char> {
    decimal(width as nat) + "×"@ + decimal(height as nat) + " "@ + spec_format_name(f)
        + " needs "@ + decimal(needed) + " bytes, got "@ + decimal(got)
}

/// Why a tightly packed frame over this many bytes is refused, if it is.
pub open spec fn spec_packed_fault(width: u32, height: u32, f: PixelFormat, data_len: nat) -> Option<
    Seq<char>,
> {
    match spec_layout_fault(f, width, height) {
        Some(m) => Some(m),
        None => if data_len != packed_total(f, width, height) {
            Some(packed_size_message(width, height, f, packed_total(f, width, height), data_len))
        } else {
            None
        },
    }
}

proof fn lemma_packed_offset_grows(f: PixelFormat, width: u32, height: u32, a: nat, b: nat)
    requires
        a <= b,
    ensures
        packed_offset(f, width, height, a) <= packed_offset(f, width, height, b),
    decreases b - a,
{
    if a < b {
        lemma_packed_offset_grows(f, width, height, a, (b - 1) as nat);
    }
}

/// The planes of a tightly packed frame over enough bytes are all in bounds:
/// a layout `packed_size` accepts, handed to `with_planes` with at least that
/// many bytes, is accepted there too.
pub proof fn lemma_packed_planes_fit(f: PixelFormat, width: u32, height: u32, data_len: nat)
    requires
        width > 0,
        height > 0,
        packed_total(f, width, height) <= data_len,
        data_len <= usize::MAX,
    ensures
        spec_frame_fault(width, height, f, packed_planes(f, width, height), data_len) is None,
{
    let planes = packed_planes(f, width, height);
    let count = spec_plane_count(f);
    assert forall|k: int| 0 <= k < count implies plane_fault(
        f,
        k as nat,
        width,
        height,
        #[trigger] planes[k],
        data_len,
    ) is None by {
        lemma_packed_offset_grows(f, width, height, (k + 1) as nat, count);
        lemma_packed_offset_grows(f, width, height, k as nat, (k + 1) as nat);
        let rb = row_bytes(f, k as nat, width);
        let ph = plane_height(f, k as nat, height);
        assert(ph >= 1);
        assert(rb * ((ph - 1) as nat) + rb == rb * ph) by (nonlinear_arith)
            requires
                ph >= 1,
        ;
        assert(rb <= rb * ph) by (nonlinear_arith)
            requires
                ph >= 1,
        ;
    }
    lemma_all_planes_fine(f, width, height, planes, data_len, 0);
}

proof fn lemma_all_planes_fine(
    f: PixelFormat,
    width: u32,
    height: u32,
    planes: Seq<Plane>,
    data_len: nat,
    index: nat,
)
    requires
        forall|k: int|
            0 <= k < planes.len() ==> plane_fault(f, k as nat, width, height, #[trigger] planes[k], data_len)
                is None,
    ensures
        first_plane_fault(f, width, height, planes, data_len, index) is None,
    decreases planes.len() - index,
{
    if index < planes.len() {
        assert(plane_fault(f, index, width, height, planes[index as int], data_len) is None);
        lemma_all_planes_fine(f, width, height, planes, data_len, index + 1);
    }
}

/// What `packed_size` asks for is what a packed frame takes: a frame over
/// exactly that many bytes is built rather than refused, and one over any
/// other number of bytes is refused.
pub proof fn lemma_packed_size_is_exact(width: u32, height: u32, f: PixelFormat, data_len: nat)
    requires
        spec_layout_fault(f, width, height) is None,
    ensures
        spec_packed_fault(width, height, f, data_len) is None <==> data_len == packed_total(f, width, height),
{
}

/// Plane offsets and total size for a tightly packed frame.
fn packed_layout(format: PixelFormat, width: u32, height: u32) -> (r: Result<(Vec<Plane>, usize)>)
    ensures
        match spec_layout_fault(format, width, height) {
            Some(m) => r matches Err(e) && is_bad_frame(e, m),
            None => r matches Ok((planes, size)) && planes@ == packed_planes(format, width, height)
                && size == packed_total(format, width, height),
        },
{
    if width == 0 || height == 0 {
        let mut reason = String::from_str("a ");
        push_decimal(&mut reason, width as u64);
        reason.append("×");
        push_decimal(&mut reason, height as u64);
        reason.append(" picture has no pixels");
        return Err(Error::BadFrame { reason });
    }
    let count = format.plane_count();
    let mut planes: Vec<Plane> = Vec::new();
    let mut offset: u128 = 0;
    let mut index: usize = 0;
    while index < count
        invariant
            count == spec_plane_count(format),
            width > 0 && height > 0,
            index <= count,
            offset == packed_offset(format, width, height, index as nat),
            offset <= usize::MAX,
            planes@ == packed_planes(format, width, height).subrange(0, index as int),
        decreases count - index,
    {
        let height_in_rows: u32 = match format.plane_dimensions(index, width, height) {
            Some((_, h)) => h,
            None => height,
        };
        let stride = row_bytes_of(format, index, width);
        proof {
            assert(stride as nat * height_in_rows as nat <= 0x8_0000_0000 * 0xFFFF_FFFF) by (nonlinear_arith)
                requires
                    stride <= 0x8_0000_0000u64,
                    height_in_rows <= 0xFFFF_FFFFu32,
            ;
        }
        let next = offset + stride as u128 * height_in_rows as u128;
        if next > usize::MAX as u128 {
            proof {
                lemma_packed_offset_grows(format, width, height, (index + 1) as nat, count as nat);
            }
            let mut reason = String::new();
            push_decimal(&mut reason, width as u64);
            reason.append("×");
            push_decimal(&mut reason, height as u64);
            reason.append(" ");
            reason.append(format.name());
            reason.append(" does not fit in memory");
            return Err(Error::BadFrame { reason });
        }
        proof {
            let ph = height_in_rows as int;
            let st = stride as int;
            assert(st <= st * ph) by (nonlinear_arith)
                requires
                    ph >= 1,
                    st >= 0,
            ;
        }
        planes.push(Plane { offset: offset as usize, stride: stride as usize });
        offset = next;
        index = index + 1;
        proof {
            assert(planes@ =~= packed_planes(format, width, height).subrange(0, index as int));
        }
    }
    proof {
        assert(packed_planes(format, width, height).subrange(0, count as int) =~= packed_planes(
            format,
            width,
            height,
        ));
    }
    Ok((planes, offset as usize))
}

/// The number of bytes a tightly packed frame of this description needs.
///
/// For sizing a pool, or refusing a resolution before allocating for it.
pub fn packed_size(format: PixelFormat, width: u32, height: u32) -> (r: Result<usize>)
    ensures
        match spec_layout_fault(format, width, height) {
            Some(m) => r matches Err(e) && is_bad_frame(e, m),
            None => r == Ok::<usize, Error>(packed_total(format, width, height) as usize),
        },
{
    match packed_layout(format, width, height) {
        Ok((_, size)) => Ok(size),
        Err(e) => Err(e),
    }
}

/// How many elements a vector can hold without reallocating
/// (`Vec::capacity`).
///
/// Trusted for what the standard library documents: never fewer than it
/// holds. How many more is the allocator's business and is not stated.
#[verifier::external_body]
fn capacity_of(buffer: &Vec<u8>) -> (n: usize)
    ensures
        n >= buffer@.len(),
{
    buffer.capacity()
}

/// A pool as the contracts see it.
pub struct PoolView {
    /// The buffers waiting to be reused, in the order they are held.
    pub held: Seq<Seq<u8>>,
    /// How many bytes each held buffer can take without growing: its
    /// capacity, as it was when the buffer was given back.
    pub room: Seq<nat>,
    /// How many it will hold at most.
    pub limit: nat,
    /// How many `take` calls were answered from the pool.
    pub reused: nat,
    /// How many `take` calls had to allocate.
    pub allocated: nat,
}

/// What every pool keeps: one capacity per held buffer, none smaller than
/// the buffer, and no more buffers than the limit.
pub open spec fn pool_ok(pool: PoolView) -> bool {
    &&& pool.room.len() == pool.held.len()
    &&& pool.held.len() <= pool.limit
    &&& forall|i: int| 0 <= i < pool.held.len() ==> #[trigger] pool.room[i] >= pool.held[i].len()
}

/// A buffer of `size` zeroes.
pub open spec fn zeroes(size: nat) -> Seq<u8> {
    Seq::new(size, |i: int| 0u8)
}

/// The first held buffer, from `from` on, with room for `size` bytes.
pub open spec fn first_with_room(room: Seq<nat>, size: nat, from: nat) -> Option<nat>
    decreases room.len() - from,
{
    if from >= room.len() {
        None
    } else if room[from as int] >= size {
        Some(from)
    } else {
        first_with_room(room, size, from + 1)
    }
}

/// The pool after a `take` of `size` bytes: the first held buffer with room
/// for them is handed out, the last held buffer taking its place, and a reuse
/// is counted; with none, nothing held changes and an allocation is counted.
pub open spec fn spec_take(pool: PoolView, size: nat) -> PoolView {
    match first_with_room(pool.room, size, 0) {
        Some(i) => PoolView {
            held: pool.held.update(i as int, pool.held.last()).drop_last(),
            room: pool.room.update(i as int, pool.room.last()).drop_last(),
            reused: pool.reused + 1,
            ..pool
        },
        None => PoolView { allocated: pool.allocated + 1, ..pool },
    }
}

/// The pool after a buffer with `room` bytes of capacity is offered back:
/// kept if there is room in the pool, dropped if not.
pub open spec fn spec_give(pool: PoolView, buffer: Seq<u8>, room: nat) -> PoolView {
    if pool.held.len() < pool.limit {
        PoolView { held: pool.held.push(buffer), room: pool.room.push(room), ..pool }
    } else {
        pool
    }
}

/// Whether `after` is `before` with `buffer` offered back, at some capacity
/// no smaller than the buffer.
pub open spec fn given_back(before: PoolView, buffer: Seq<u8>, after: PoolView) -> bool {
    exists|room: nat| room >= buffer.len() && after == spec_give(before, buffer, room)
}

/// Buffers handed back for reuse, so steady-state playback allocates nothing.
///
/// Decoding 24 frames a second means 24 allocations a second of several
/// megabytes each; at 4K that is enough to keep an allocator busy and enough to
/// fragment one. Frames come back here when the renderer is done with them.
#[derive(Debug)]
pub struct FramePool {
    /// Each held buffer beside its capacity when it was given back; a buffer
    /// at rest in the pool does not grow or shrink.
    buffers: Vec<(Vec<u8>, usize)>,
    capacity: usize,
    reused: u64,
    allocated: u64,
}

impl View for FramePool {
    type V = PoolView;

    closed spec fn view(&self) -> PoolView {
        PoolView {
            held: self.buffers@.map_values(|b: (Vec<u8>, usize)| b.0@),
            room: self.buffers@.map_values(|b: (Vec<u8>, usize)| b.1 as nat),
            limit: self.capacity as nat,
            reused: self.reused as nat,
            allocated: self.allocated as nat,
        }
    }
}

impl FramePool {
    /// Every held buffer's recorded capacity covers its length, and the pool
    /// holds no more than its limit.
    #[verifier::type_invariant]
    spec fn well_kept(self) -> bool {
        &&& self.buffers@.len() <= self.capacity
        &&& forall|i: int| 0 <= i < self.buffers@.len() ==> #[trigger] self.buffers@[i].1 >= self.buffers@[i].0@.len()
    }

    /// The type invariant, seen through the view.
    proof fn lemma_view_ok(self)
        requires
            self.well_kept(),
        ensures
            pool_ok(self@),
    {
        assert forall|i: int| 0 <= i < self@.held.len() implies #[trigger] self@.room[i] >= self@.held[i].len() by {
            assert(self@.room[i] == self.buffers@[i].1 as nat);
            assert(self@.held[i] == self.buffers@[i].0@);
        }
    }

    /// A pool holding at most `capacity` buffers.
    ///
    /// Bounded on purpose: an unbounded pool is a memory leak that happens to
    /// be spelled differently.
    pub fn new(capacity: usize) -> (pool: FramePool)
        ensures
            pool@ == (PoolView {
                held: Seq::empty(),
                room: Seq::empty(),
                limit: capacity as nat,
                reused: 0,
                allocated: 0,
            }),
            pool_ok(pool@),
    {
        let pool = FramePool { buffers: Vec::with_capacity(capacity), capacity, reused: 0, allocated: 0 };
        proof {
            assert(pool@.held =~= Seq::<Seq<u8>>::empty());
            assert(pool@.room =~= Seq::<nat>::empty());
        }
        pool
    }

    /// The first held buffer that could take `size` bytes without growing.
    fn first_big_enough(&self, size: usize) -> (found: Option<usize>)
        ensures
            match first_with_room(self@.room, size as nat, 0) {
                Some(i) => found == Some(i as usize),
                None => found is None,
            },
    {
        let mut i: usize = 0;
        while i < self.buffers.len()
            invariant
                i <= self.buffers@.len(),
                self@.room.len() == self.buffers@.len(),
                first_with_room(self@.room, size as nat, 0) == first_with_room(self@.room, size as nat, i as nat),
            decreases self.buffers@.len() - i,
        {
            assert(self@.room[i as int] == self.buffers@[i as int].1 as nat);
            if self.buffers[i].1 >= size {
                return Some(i);
            }
            i = i + 1;
        }
        None
    }

    /// A buffer of exactly `size` bytes, all zero.
    ///
    /// Any held buffer big enough will do; taking the first avoids a scan that
    /// would cost more than the allocation it saves.
    pub fn take(&mut self, size: usize) -> (buffer: Vec<u8>)
        requires
            old(self)@.reused < u64::MAX,
            old(self)@.allocated < u64::MAX,
        ensures
            buffer@ == zeroes(size as nat),
            final(self)@ == spec_take(old(self)@, size as nat),
            pool_ok(final(self)@),
    {
        proof {
            use_type_invariant(&*self);
        }
        let ghost before = self@;
        if let Some(index) = self.first_big_enough(size) {
            proof {
                lemma_first_with_room_found(before.room, size as nat, 0);
            }
            let mut entries: Vec<(Vec<u8>, usize)> = Vec::new();
            std::mem::swap(&mut entries, &mut self.buffers);
            let ghost all = entries@;
            let (mut buffer, _) = entries.swap_remove(index);
            proof {
                assert(entries@ == all.update(index as int, all.last()).drop_last());
                assert forall|i: int| 0 <= i < entries@.len() implies #[trigger] entries@[i].1
                    >= entries@[i].0@.len() by {
                    if i == index {
                        assert(entries@[i] == all[all.len() - 1]);
                    } else {
                        assert(entries@[i] == all[i]);
                    }
                }
            }
            self.buffers = entries;
            buffer.clear();
            buffer.resize(size, 0);
            self.reused = self.reused + 1;
            proof {
                assert(buffer@ =~= zeroes(size as nat));
                assert(self@.held =~= before.held.update(index as int, before.held.last()).drop_last());
                assert(self@.room =~= before.room.update(index as int, before.room.last()).drop_last());
                use_type_invariant(&*self);
                self.lemma_view_ok();
            }
            return buffer;
        }
        self.allocated = self.allocated + 1;
        let buffer = vec![0u8; size];
        proof {
            assert(buffer@ =~= zeroes(size as nat));
            use_type_invariant(&*self);
            self.lemma_view_ok();
        }
        buffer
    }

    /// Offers a buffer back. Dropped if the pool is full.
    pub fn give(&mut self, buffer: Vec<u8>)
        ensures
            given_back(old(self)@, buffer@, final(self)@),
            pool_ok(final(self)@),
    {
        proof {
            use_type_invariant(&*self);
        }
        let ghost before = self@;
        if self.buffers.len() < self.capacity {
            let room = capacity_of(&buffer);
            let ghost kept = buffer@;
            let mut entries: Vec<(Vec<u8>, usize)> = Vec::new();
            std::mem::swap(&mut entries, &mut self.buffers);
            let ghost all = entries@;
            entries.push((buffer, room));
            proof {
                assert forall|i: int| 0 <= i < entries@.len() implies #[trigger] entries@[i].1
                    >= entries@[i].0@.len() by {
                    if i < all.len() {
                        assert(entries@[i] == all[i]);
                    }
                }
            }
            self.buffers = entries;
            proof {
                assert(self@.held =~= before.held.push(kept));
                assert(self@.room =~= before.room.push(room as nat));
                assert(self@ == spec_give(before, kept, room as nat));
            }
        } else {
            proof {
                assert(self@ == spec_give(before, buffer@, buffer@.len()));
            }
        }
        proof {
            use_type_invariant(&*self);
            self.lemma_view_ok();
        }
    }

    /// Takes a frame's buffer back if nothing else still holds it.
    ///
    /// A frame the renderer is still reading is left alone — which is the point
    /// of the [`Arc`]: reuse is an optimisation, never a race.
    pub fn reclaim(&mut self, frame: Frame)
        ensures
            final(self)@ == old(self)@ || given_back(old(self)@, frame@.data, final(self)@),
            pool_ok(final(self)@),
    {
        proof {
            use_type_invariant(&*self);
            self.lemma_view_ok();
        }
        if let Ok(buffer) = take_if_sole(frame.data) {
            self.give(buffer);
        }
    }

    /// How many `take` calls were answered without allocating, and how many
    /// were not. Steady-state playback should stop adding to the second.
    pub fn statistics(&self) -> (counts: (u64, u64))
        ensures
            counts.0 == self@.reused,
            counts.1 == self@.allocated,
    {
        (self.reused, self.allocated)
    }
}

impl Default for FramePool {
    /// A pool that holds nothing: every buffer given to it is dropped.
    fn default() -> (pool: FramePool)
        ensures
            pool@ == (PoolView {
                held: Seq::empty(),
                room: Seq::empty(),
                limit: 0,
                reused: 0,
                allocated: 0,
            }),
    {
        FramePool::new(0)
    }
}

/// A pool keeps what it keeps, whatever is taken from it or given back: one
/// capacity per held buffer, none smaller than its buffer, and never more
/// buffers than it was made for.
pub proof fn lemma_pool_stays_ok(pool: PoolView, size: nat, buffer: Seq<u8>, room: nat)
    requires
        pool_ok(pool),
        room >= buffer.len(),
    ensures
        pool_ok(spec_take(pool, size)),
        pool_ok(spec_give(pool, buffer, room)),
{
    lemma_first_with_room_found(pool.room, size, 0);
    let taken = spec_take(pool, size);
    if let Some(i) = first_with_room(pool.room, size, 0) {
        assert forall|j: int| 0 <= j < taken.held.len() implies #[trigger] taken.room[j]
            >= taken.held[j].len() by {
            if j == i {
                assert(taken.room[j] == pool.room.last());
                assert(taken.held[j] == pool.held.last());
            }
        }
    }
    let given = spec_give(pool, buffer, room);
    if pool.held.len() < pool.limit {
        assert forall|j: int| 0 <= j < given.held.len() implies #[trigger] given.room[j]
            >= given.held[j].len() by {
            if j < pool.held.len() {
                assert(given.room[j] == pool.room[j]);
                assert(given.held[j] == pool.held[j]);
            }
        }
    }
}

/// What `first_with_room` finds is the first with room, and in range.
proof fn lemma_first_with_room_found(room: Seq<nat>, size: nat, from: nat)
    ensures
        match first_with_room(room, size, from) {
            Some(i) => from <= i < room.len() && room[i as int] >= size && forall|j: int|
                from <= j < i ==> #[trigger] room[j] < size,
            None => forall|j: int| from <= j < room.len() ==> #[trigger] room[j] < size,
        },
    decreases room.len() - from,
{
    if from < room.len() && room[from as int] < size {
        lemma_first_with_room_found(room, size, from + 1);
    }
}

/// A held buffer as long as what is asked for always means a reuse: `take`
/// allocates only when no held buffer could serve.
pub proof fn lemma_long_enough_is_reused(pool: PoolView, size: nat, i: int)
    requires
        pool_ok(pool),
        0 <= i < pool.held.len(),
        pool.held[i].len() >= size,
    ensures
        spec_take(pool, size).reused == pool.reused + 1,
        spec_take(pool, size).allocated == pool.allocated,
{
    lemma_first_with_room_found(pool.room, size, 0);
    assert(pool.room[i] >= size);
}

/// Once warm, the pool stops allocating: a buffer given back to a pool with
/// room serves the next `take` of no more than its length without an
/// allocation.
pub proof fn lemma_warm_pool_reuses(pool: PoolView, buffer: Seq<u8>, warm: PoolView, size: nat)
    requires
        pool_ok(pool),
        pool.held.len() < pool.limit,
        buffer.len() >= size,
        given_back(pool, buffer, warm),
    ensures
        spec_take(warm, size).allocated == pool.allocated,
        spec_take(warm, size).reused == pool.reused + 1,
{
    let room = choose|room: nat| room >= buffer.len() && warm == spec_give(pool, buffer, room);
    lemma_pool_stays_ok(pool, size, buffer, room);
    lemma_long_enough_is_reused(warm, size, pool.held.len() as int);
}

} // verus!
