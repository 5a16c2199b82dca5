//! What a file contains, and the compressed pieces that come out of it.
//!
//! These types are the seam between demuxing and decoding, so they live outside
//! both: a build with no demuxer can still be handed packets from somewhere
//! else — a network stream, a caller's own parser — and decode them.

use vstd::prelude::*;

use crate::color::ColorSpace;
use crate::identify::{spec_is_royalty_free, Container, Encoding};
use crate::time::Duration;

verus! {

/// An exact ratio.
///
/// Frame rates are ratios and not decimals: 30000/1001 is exactly 29.97, and a
/// player that rounds it drifts by a frame every thirty-three seconds.
#[derive(Clone, Copy, Debug, PartialEq, Eq, Hash, Structural)]
pub struct Rational {
    /// Top.
    pub numerator: u32,
    /// Bottom. Never zero in a value that came from this crate.
    pub denominator: u32,
}

/// The length of one frame at `numerator / denominator` frames a second, to
/// the nearest nanosecond (halves up); no time at all at a rate of zero.
pub open spec fn spec_frame_nanos(numerator: nat, denominator: nat) -> nat {
    if numerator == 0 {
        0
    } else {
        (2 * denominator * 1_000_000_000 + numerator) / (2 * numerator)
    }
}

impl Rational {
    /// How long one frame lasts at this rate, to the nearest nanosecond,
    /// worked out from the exact ratio rather than a decimal.
    pub fn frame_duration(self) -> (d: Duration)
        ensures
            d@ == spec_frame_nanos(self.numerator as nat, self.denominator as nat),
    {
        if self.numerator == 0 {
            return Duration::zero();
        }
        proof {
            assert(2 * (self.denominator as nat) * 1_000_000_000 + self.numerator <= 2 * 0xFFFF_FFFF
                * 1_000_000_000 + 0xFFFF_FFFF) by (nonlinear_arith)
                requires
                    self.denominator <= 0xFFFF_FFFFu32,
                    self.numerator <= 0xFFFF_FFFFu32,
            ;
        }
        let numerator = self.numerator as u128;
        let twice = 2 * self.denominator as u128 * 1_000_000_000 + numerator;
        Duration::from_nanos_u128(twice / (2 * numerator))
    }

    /// A ratio. `denominator` of zero is corrected to one, because a malformed
    /// header should not divide by zero three layers down.
    pub fn new(numerator: u32, denominator: u32) -> (r: Rational)
        ensures
            r.numerator == numerator,
            r.denominator == (if denominator == 0 {
                1
            } else {
                denominator
            }),
    {
        Rational { numerator, denominator: if denominator == 0 {
            1
        } else {
            denominator
        } }
    }
}

/// How a picture should be turned before it is shown.
///
/// Phones write this rather than rotating the pixels, so a video that looks
/// sideways is usually a display matrix that went unread.
#[derive(Clone, Copy, Debug, Default, PartialEq, Eq, Hash, Structural)]
pub enum Rotation {
    /// As stored.
    #[default]
    Upright,
    /// A quarter turn clockwise.
    Quarter,
    /// Upside down.
    Half,
    /// A quarter turn anticlockwise.
    ThreeQuarters,
}

/// The quarter turn nearest to an angle in degrees: within 45 of it, ties going
/// to the larger turn.
pub open spec fn spec_rotation_from_degrees(degrees: int) -> Rotation {
    let d = degrees % 360;
    if d <= 44 || d >= 315 {
        Rotation::Upright
    } else if d <= 134 {
        Rotation::Quarter
    } else if d <= 224 {
        Rotation::Half
    } else {
        Rotation::ThreeQuarters
    }
}

impl Rotation {
    /// Degrees clockwise.
    pub fn degrees(self) -> (d: u32)
        ensures
            d == match self {
                Rotation::Upright => 0u32,
                Rotation::Quarter => 90u32,
                Rotation::Half => 180u32,
                Rotation::ThreeQuarters => 270u32,
            },
    {
        match self {
            Rotation::Upright => 0,
            Rotation::Quarter => 90,
            Rotation::Half => 180,
            Rotation::ThreeQuarters => 270,
        }
    }

    /// From degrees, rounded to the nearest quarter turn.
    pub fn from_degrees(degrees: i32) -> (r: Rotation)
        ensures
            r == spec_rotation_from_degrees(degrees as int),
    {
        // A whole number of turns large enough to make any `i32` non-negative,
        // so the remainder below is the Euclidean one.
        let turns: i64 = 360 * 5_965_233;
        let shifted = (degrees as i64 + turns) as u64;
        let d = shifted % 360;
        proof {
            assert(d as int == (degrees as int) % 360) by (nonlinear_arith)
                requires
                    shifted as int == degrees as int + 360 * 5_965_233,
                    d as int == (shifted as int) % 360,
            ;
        }
        if d <= 44 || d >= 315 {
            Rotation::Upright
        } else if d <= 134 {
            Rotation::Quarter
        } else if d <= 224 {
            Rotation::Half
        } else {
            Rotation::ThreeQuarters
        }
    }

    /// Whether this rotation swaps width and height.
    pub fn is_transposed(self) -> (b: bool)
        ensures
            b == (self is Quarter || self is ThreeQuarters),
    {
        match self {
            Rotation::Quarter | Rotation::ThreeQuarters => true,
            _ => false,
        }
    }
}

/// What kind of stream a track is.
#[derive(Clone, Copy, Debug, PartialEq, Eq, Hash, Structural)]
#[non_exhaustive]
pub enum TrackKind {
    /// Pictures.
    Video,
    /// Sound. Reported so a caller can hand the file to an audio engine, and
    /// otherwise ignored — vtome never decodes it.
    Audio,
    /// Subtitles.
    Subtitle,
    /// Something else the container carries.
    Other,
}

/// One track of a file.
#[derive(Clone, Debug)]
pub struct TrackInfo {
    /// The container's own identifier for it.
    pub id: u32,
    /// What it carries.
    pub kind: TrackKind,
    /// The encoding, where it is one this crate knows.
    pub encoding: Option<Encoding>,
    /// The container's codec string, kept verbatim for messages about the
    /// encodings this crate does *not* know.
    pub codec_id: String,
    /// Width in pixels, before rotation.
    pub width: u32,
    /// Height in pixels, before rotation.
    pub height: u32,
    /// Frame rate, where the container states or implies one.
    pub frame_rate: Option<Rational>,
    /// Bits per sample.
    pub bit_depth: u32,
    /// What the samples mean.
    pub color: ColorSpace,
    /// How the picture should be turned.
    pub rotation: Rotation,
    /// How long the track runs.
    pub duration: Duration,
    /// The decoder configuration record — `avcC`, `hvcC`, `av1C`, or Matroska's
    /// private data. A decoder needs this *before* the first packet.
    pub extra_data: Vec<u8>,
}

/// The encodings a decoder here could take, whatever is compiled in.
pub open spec fn spec_is_decodable_encoding(e: Option<Encoding>) -> bool {
    match e {
        Some(Encoding::H264) | Some(Encoding::H265) | Some(Encoding::Av1) | Some(Encoding::Vp9)
        | Some(Encoding::Vp8) | Some(Encoding::Still) => true,
        _ => false,
    }
}

impl TrackInfo {
    /// The dimensions as they should be displayed, with rotation applied.
    pub fn display_size(&self) -> (size: (u32, u32))
        ensures
            size == (if self.rotation is Quarter || self.rotation is ThreeQuarters {
                (self.height, self.width)
            } else {
                (self.width, self.height)
            }),
    {
        if self.rotation.is_transposed() {
            (self.height, self.width)
        } else {
            (self.width, self.height)
        }
    }

    /// Whether this crate could decode it, ignoring what is compiled in.
    pub fn is_decodable(&self) -> (b: bool)
        ensures
            b == spec_is_decodable_encoding(self.encoding),
    {
        match self.encoding {
            Some(Encoding::H264) | Some(Encoding::H265) | Some(Encoding::Av1) | Some(
                Encoding::Vp9,
            ) | Some(Encoding::Vp8) | Some(Encoding::Still) => true,
            _ => false,
        }
    }
}

/// Everything known about a file without decoding any of it.
#[derive(Clone, Debug)]
pub struct MediaInfo {
    /// The wrapper.
    pub container: Container,
    /// Its tracks.
    pub tracks: Vec<TrackInfo>,
    /// The longest track's duration.
    pub duration: Duration,
    /// Whether seeking is possible — false for a stream with no index.
    pub seekable: bool,
}

impl MediaInfo {
    /// The first video track, which is the one a player shows.
    pub fn video(&self) -> (track: Option<&TrackInfo>)
        ensures
            match track {
                Some(t) => exists|i: int|
                    0 <= i < self.tracks@.len() && self.tracks@[i] == *t && t.kind == TrackKind::Video
                        && forall|j: int| 0 <= j < i ==> #[trigger] self.tracks@[j].kind != TrackKind::Video,
                None => forall|i: int| 0 <= i < self.tracks@.len() ==> #[trigger] self.tracks@[i].kind
                    != TrackKind::Video,
            },
    {
        let mut i: usize = 0;
        while i < self.tracks.len()
            invariant
                i <= self.tracks@.len(),
                forall|j: int| 0 <= j < i ==> #[trigger] self.tracks@[j].kind != TrackKind::Video,
            decreases self.tracks@.len() - i,
        {
            if self.tracks[i].kind == TrackKind::Video {
                return Some(&self.tracks[i]);
            }
            i = i + 1;
        }
        None
    }

    /// Whether there is sound in here.
    ///
    /// vtome will not touch it, but a caller pairing this with an audio engine
    /// needs to know it is there.
    pub fn has_audio(&self) -> (b: bool)
        ensures
            b == exists|i: int| 0 <= i < self.tracks@.len() && #[trigger] self.tracks@[i].kind == TrackKind::Audio,
    {
        let mut i: usize = 0;
        while i < self.tracks.len()
            invariant
                i <= self.tracks@.len(),
                forall|j: int| 0 <= j < i ==> #[trigger] self.tracks@[j].kind != TrackKind::Audio,
            decreases self.tracks@.len() - i,
        {
            if self.tracks[i].kind == TrackKind::Audio {
                return true;
            }
            i = i + 1;
        }
        false
    }

    /// Whether the video track, if any, is in a format nobody charges for.
    pub fn is_royalty_free(&self) -> (b: bool)
        ensures
            b == exists|i: int|
                0 <= i < self.tracks@.len() && self.tracks@[i].kind == TrackKind::Video && (forall|j: int|
                    0 <= j < i ==> #[trigger] self.tracks@[j].kind != TrackKind::Video) && (
                #[trigger] self.tracks@[i].encoding matches Some(e) && spec_is_royalty_free(e)),
    {
        match self.video() {
            Some(track) => match track.encoding {
                Some(encoding) => {
                    let free = encoding.is_royalty_free();
                    proof {
                        if !free {
                            assert forall|i: int|
                                0 <= i < self.tracks@.len() && self.tracks@[i].kind
                                    == TrackKind::Video && (forall|j: int|
                                    0 <= j < i ==> #[trigger] self.tracks@[j].kind
                                        != TrackKind::Video) implies !(
                            #[trigger] self.tracks@[i].encoding matches Some(e)
                                && spec_is_royalty_free(e)) by {
                                let k = choose|k: int|
                                    0 <= k < self.tracks@.len() && self.tracks@[k] == *track
                                        && track.kind == TrackKind::Video && forall|j: int|
                                        0 <= j < k ==> #[trigger] self.tracks@[j].kind
                                            != TrackKind::Video;
                                if i < k {
                                    assert(self.tracks@[i].kind != TrackKind::Video);
                                } else if k < i {
                                    assert(self.tracks@[k].kind != TrackKind::Video);
                                }
                            }
                        }
                    }
                    free
                },
                None => {
                    proof {
                        assert forall|i: int|
                            0 <= i < self.tracks@.len() && self.tracks@[i].kind == TrackKind::Video
                                && (forall|j: int|
                                0 <= j < i ==> #[trigger] self.tracks@[j].kind
                                    != TrackKind::Video) implies !(
                        #[trigger] self.tracks@[i].encoding matches Some(e) && spec_is_royalty_free(
                            e,
                        )) by {
                            let k = choose|k: int|
                                0 <= k < self.tracks@.len() && self.tracks@[k] == *track
                                    && track.kind == TrackKind::Video && forall|j: int|
                                    0 <= j < k ==> #[trigger] self.tracks@[j].kind
                                        != TrackKind::Video;
                            if i < k {
                                assert(self.tracks@[i].kind != TrackKind::Video);
                            } else if k < i {
                                assert(self.tracks@[k].kind != TrackKind::Video);
                            }
                        }
                    }
                    false
                },
            },
            None => false,
        }
    }
}

/// One compressed unit out of a container: a frame, or part of one.
#[derive(Clone, Debug)]
pub struct Packet {
    /// Which track it belongs to.
    pub track_id: u32,
    /// The compressed bytes.
    pub data: Vec<u8>,
    /// When the picture inside is due.
    pub pts: Duration,
    /// When it should be decoded, which differs from `pts` wherever there are
    /// B-frames.
    pub dts: Duration,
    /// Whether decoding can start here.
    pub is_keyframe: bool,
}

impl Packet {
    /// A packet decoded in the order it is shown.
    pub fn new(track_id: u32, data: Vec<u8>, pts: Duration, is_keyframe: bool) -> (p: Packet)
        ensures
            p.track_id == track_id,
            p.data@ == data@,
            p.pts == pts,
            p.dts == pts,
            p.is_keyframe == is_keyframe,
    {
        Packet { track_id, data, pts, dts: pts, is_keyframe }
    }

    /// How many bytes it holds.
    pub fn len(&self) -> (n: usize)
        ensures
            n == self.data@.len(),
    {
        self.data.len()
    }

    /// Whether it holds nothing. A zero-length packet is legal in some
    /// containers and means "no data this interval".
    pub fn is_empty(&self) -> (b: bool)
        ensures
            b == (self.data@.len() == 0),
    {
        self.data.len() == 0
    }
}

/// The degrees of each quarter turn.
pub open spec fn spec_degrees(r: Rotation) -> int {
    match r {
        Rotation::Upright => 0,
        Rotation::Quarter => 90,
        Rotation::Half => 180,
        Rotation::ThreeQuarters => 270,
    }
}

/// Reading back a rotation's own degrees gives the same rotation, and a whole
/// turn more or less changes nothing.
pub proof fn lemma_rotation_round_trip(r: Rotation, degrees: int)
    ensures
        spec_rotation_from_degrees(spec_degrees(r)) == r,
        spec_rotation_from_degrees(degrees + 360) == spec_rotation_from_degrees(degrees),
        spec_rotation_from_degrees(degrees - 360) == spec_rotation_from_degrees(degrees),
{
    assert((degrees + 360) % 360 == degrees % 360) by (nonlinear_arith);
    assert((degrees - 360) % 360 == degrees % 360) by (nonlinear_arith);
}

} // verus!
