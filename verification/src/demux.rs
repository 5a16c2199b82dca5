//! The decisions in taking a container apart, without decoding anything.
//!
//! Two containers: ISO base media (`.mp4`, `.mov`, and the still-image members
//! of the family) and Matroska/WebM. Reading them is I/O and is done around
//! this crate; what is decided about what was read is here — which reader a
//! file goes to, what a track is, when a sample is due, where a seek lands,
//! and which packet comes out next.
//!
//! A demuxer does not decode, and it does not touch audio beyond reporting that
//! it is there.

use vstd::prelude::*;

use crate::bitstream::spec_parse_avcc;
use crate::color::{spec_guess_for, ColorSpace, Matrix, Range};
use crate::error::{is_unsupported, Error};
use crate::identify::{
    encoding_named,
    normalized_codec_id,
    spec_container_name,
    spec_is_image,
    Container,
    Encoding,
};
use crate::media::{MediaInfo, Packet, Rational, Rotation, TrackInfo, TrackKind};
use crate::time::Duration;

verus! {

/// A container that has been opened and can be read through.
pub trait Demuxer: Send {
    /// What is in the file.
    fn info(&self) -> &MediaInfo;

    /// The next packet, in the order the file stores them, or `None` at the
    /// end.
    ///
    /// Packets come out interleaved across tracks, because that is how they are
    /// stored — a caller that wants one track filters on the track id.
    fn next_packet(&mut self) -> crate::error::Result<Option<Packet>>;

    /// Moves to the last keyframe at or before `position`.
    ///
    /// Keyframe rather than exact frame, always: decoding cannot begin
    /// anywhere else. A player that wants the exact frame decodes forward from
    /// here and discards, which is a policy decision and so is not made here.
    fn seek(&mut self, position: Duration) -> crate::error::Result<()>;
}

/// Nanoseconds a tick lasts at this many ticks a second, multiplied out before
/// dividing, capped at what a `u64` of nanoseconds holds; zero ticks a second
/// is no time at all.
pub open spec fn spec_scaled(ticks: nat, per_second: nat) -> nat {
    if per_second == 0 {
        0
    } else {
        let n = ticks * 1_000_000_000 / per_second;
        if n > u64::MAX {
            u64::MAX as nat
        } else {
            n
        }
    }
}

/// Turns a container-scale timestamp into a duration.
///
/// Timescales are ticks per second and are commonly 90000 or 1000000000, so
/// this multiplies before dividing — in 128 bits, because a two-hour film at a
/// nanosecond timescale overflows 64 in the intermediate.
pub fn scaled(ticks: u64, per_second: u64) -> (d: Duration)
    ensures
        d@ == spec_scaled(ticks as nat, per_second as nat),
{
    if per_second == 0 {
        return Duration::zero();
    }
    proof {
        assert(ticks as nat * 1_000_000_000 <= 0xFFFF_FFFF_FFFF_FFFF * 1_000_000_000) by (nonlinear_arith)
            requires
                ticks <= 0xFFFF_FFFF_FFFF_FFFFu64,
        ;
    }
    let nanoseconds = ticks as u128 * 1_000_000_000 / per_second as u128;
    let capped = if nanoseconds > u64::MAX as u128 {
        u64::MAX
    } else {
        nanoseconds as u64
    };
    Duration::from_nanos(capped)
}

/// The colour space a container's metadata describes, over the guess by
/// resolution.
pub open spec fn spec_color_from(
    matrix: Option<Matrix>,
    range: Option<Range>,
    width: u32,
    height: u32,
) -> ColorSpace {
    let guess = spec_guess_for(width, height);
    ColorSpace {
        matrix: match matrix {
            Some(m) => m,
            None => guess.matrix,
        },
        range: match range {
            Some(r) => r,
            None => guess.range,
        },
        ..guess
    }
}

/// The colour space a container's own metadata describes, falling back to the
/// guess by resolution where it says nothing — which is most files.
pub fn color_from(matrix: Option<Matrix>, range: Option<Range>, width: u32, height: u32) -> (c: ColorSpace)
    ensures
        c == spec_color_from(matrix, range, width, height),
{
    let mut color = ColorSpace::guess_for(width, height);
    if let Some(matrix) = matrix {
        color.matrix = matrix;
    }
    if let Some(range) = range {
        color.range = range;
    }
    color
}

/// Whether a track says exactly this.
pub open spec fn track_is(
    t: TrackInfo,
    id: u32,
    kind: TrackKind,
    encoding: Option<Encoding>,
    codec_id: Seq<char>,
    width: u32,
    height: u32,
    frame_rate: Option<Rational>,
    bit_depth: u32,
    color: ColorSpace,
    rotation: Rotation,
    duration: nat,
    extra_data: Seq<u8>,
) -> bool {
    &&& t.id == id
    &&& t.kind == kind
    &&& t.encoding == encoding
    &&& t.codec_id@ == codec_id
    &&& t.width == width
    &&& t.height == height
    &&& t.frame_rate == frame_rate
    &&& t.bit_depth == bit_depth
    &&& t.color == color
    &&& t.rotation == rotation
    &&& t.duration@ == duration
    &&& t.extra_data@ == extra_data
}

/// Shared construction of a video track's description: the encoding is the
/// one its codec string names.
pub fn video_track(
    id: u32,
    codec_id: String,
    width: u32,
    height: u32,
    frame_rate: Option<Rational>,
    bit_depth: u32,
    color: ColorSpace,
    rotation: Rotation,
    duration: Duration,
    extra_data: Vec<u8>,
) -> (t: TrackInfo)
    ensures
        track_is(
            t,
            id,
            TrackKind::Video,
            encoding_named(normalized_codec_id(codec_id@)),
            codec_id@,
            width,
            height,
            frame_rate,
            bit_depth,
            color,
            rotation,
            duration@,
            extra_data@,
        ),
{
    let encoding = Encoding::from_codec_id(codec_id.as_str());
    TrackInfo {
        id,
        kind: TrackKind::Video,
        encoding,
        codec_id,
        width,
        height,
        frame_rate,
        bit_depth,
        color,
        rotation,
        duration,
        extra_data,
    }
}

/// The description of a track that carries no pictures: no encoding, no
/// size, no colour to speak of.
pub open spec fn is_plain_track(
    t: TrackInfo,
    id: u32,
    kind: TrackKind,
    codec_id: Seq<char>,
    duration: nat,
    extra_data: Seq<u8>,
) -> bool {
    track_is(
        t,
        id,
        kind,
        None,
        codec_id,
        0,
        0,
        None,
        0,
        crate::color::spec_default_color(),
        Rotation::Upright,
        duration,
        extra_data,
    )
}

/// A track that is not video, described as far as this crate cares.
fn plain_track(id: u32, kind: TrackKind, codec_id: String, duration: Duration, extra_data: Vec<u8>) -> (t: TrackInfo)
    ensures
        is_plain_track(t, id, kind, codec_id@, duration@, extra_data@),
{
    TrackInfo {
        id,
        kind,
        encoding: None,
        codec_id,
        width: 0,
        height: 0,
        frame_rate: None,
        bit_depth: 0,
        color: ColorSpace::default(),
        rotation: Rotation::Upright,
        duration,
        extra_data,
    }
}

/// A path in an error, with what did not add up about the file there.
pub fn demux_error(path: std::path::PathBuf, reason: String) -> (e: Error)
    ensures
        e matches Error::Demux { path: p, reason: r } && p == path && r@ == reason@,
{
    Error::demux(path, reason)
}

/// Which reader a container goes to.
#[derive(Clone, Copy, Debug, PartialEq, Eq, Structural)]
pub enum Family {
    /// The ISO base media reader: MP4, and AVIF and HEIF.
    IsoMedia,
    /// The Matroska reader: Matroska and WebM.
    Matroska,
}

/// Why a still image is not demuxed.
pub open spec fn still_message(shown: Seq<char>, c: Container) -> Seq<char> {
    shown + " is a "@ + spec_container_name(c)
        + ", which is a still image — use the `image` feature and `vtome::load_image` rather than a demuxer"@
}

/// Why a container that identifies is not opened.
pub open spec fn unopened_message(shown: Seq<char>, c: Container) -> Seq<char> {
    shown + " is a "@ + spec_container_name(c)
        + ", which vtome identifies but does not open. Transcode it to WebM or MP4 first"@
}

/// Which reader opens a container, once identification has said what it is.
/// `shown` is how the file is named in messages.
///
/// Identification is by content, so a Matroska file named `.mp4` opens as
/// Matroska rather than failing.
///
/// # Errors
///
/// [`Error::Unsupported`] for a still image, which goes to the image loader,
/// and for a container this crate identifies but does not open.
pub fn route(container: Container, shown: &str) -> (r: crate::error::Result<Family>)
    ensures
        match container {
            Container::Mp4 | Container::Avif | Container::Heif => r matches Ok(Family::IsoMedia),
            Container::Matroska | Container::WebM => r matches Ok(Family::Matroska),
            _ => r matches Err(e) && is_unsupported(
                e,
                if spec_is_image(container) {
                    still_message(shown@, container)
                } else {
                    unopened_message(shown@, container)
                },
            ),
        },
{
    match container {
        Container::Mp4 | Container::Avif | Container::Heif => Ok(Family::IsoMedia),
        Container::Matroska | Container::WebM => Ok(Family::Matroska),
        _ => {
            let mut what = String::from_str(shown);
            what.append(" is a ");
            what.append(container.name());
            if container.is_image() {
                what.append(
                    ", which is a still image — use the `image` feature and `vtome::load_image` rather than a demuxer",
                );
            } else {
                what.append(
                    ", which vtome identifies but does not open. Transcode it to WebM or MP4 first",
                );
            }
            Err(Error::Unsupported { what })
        },
    }
}

/// An `avcC` record holding one SPS and one PPS, with four-byte NAL lengths;
/// nothing when the SPS is too short to carry a profile and level. Each set's
/// length is written as its low sixteen bits.
pub open spec fn spec_avcc_record(sps: Seq<u8>, pps: Seq<u8>) -> Seq<u8> {
    if sps.len() < 4 {
        Seq::empty()
    } else {
        seq![1u8, sps[1], sps[2], sps[3], 0xFFu8, 0xE1u8, ((sps.len() / 256) % 256) as u8, (sps.len()
            % 256) as u8] + sps + seq![1u8, ((pps.len() / 256) % 256) as u8, (pps.len() % 256) as u8]
            + pps
    }
}

/// Appends `bytes`.
fn push_all(out: &mut Vec<u8>, bytes: &[u8])
    ensures
        final(out)@ == old(out)@ + bytes@,
{
    let ghost start = old(out)@;
    let mut i: usize = 0;
    while i < bytes.len()
        invariant
            i <= bytes@.len(),
            out@ == start + bytes@.subrange(0, i as int),
        decreases bytes@.len() - i,
    {
        out.push(bytes[i]);
        i = i + 1;
        proof {
            assert(out@ =~= start + bytes@.subrange(0, i as int));
        }
    }
    proof {
        assert(bytes@.subrange(0, bytes@.len() as int) =~= bytes@);
    }
}

/// The SPS and PPS, rebuilt into an `avcC`-shaped record.
///
/// The MP4 reader exposes the parameter sets but not the box they came in, and
/// a decoder wants them before the first frame. Reassembling is cheap and keeps
/// a track's extra data meaning one thing across containers.
pub fn parameter_sets(sps: Option<&[u8]>, pps: Option<&[u8]>) -> (record: Vec<u8>)
    ensures
        record@ == match (sps, pps) {
            (Some(s), Some(p)) => spec_avcc_record(s@, p@),
            _ => Seq::empty(),
        },
{
    let (sps, pps) = match (sps, pps) {
        (Some(s), Some(p)) => (s, p),
        _ => return Vec::new(),
    };
    if sps.len() < 4 {
        return Vec::new();
    }
    let mut record: Vec<u8> = Vec::new();
    record.push(1);  // configuration version
    record.push(sps[1]);  // profile
    record.push(sps[2]);  // compatibility
    record.push(sps[3]);  // level
    record.push(0xFF);  // reserved ones + four-byte NAL lengths
    record.push(0xE0 | 1);  // reserved ones + one SPS
    record.push(((sps.len() / 256) % 256) as u8);
    record.push((sps.len() % 256) as u8);
    push_all(&mut record, sps);
    record.push(1);
    record.push(((pps.len() / 256) % 256) as u8);
    record.push((pps.len() % 256) as u8);
    push_all(&mut record, pps);
    proof {
        assert(0xE0u8 | 1u8 == 0xE1u8) by (bit_vector);
        assert(record@ =~= spec_avcc_record(sps@, pps@));
    }
    record
}

/// A record rebuilt from parameter sets short enough for their length fields
/// parses back to those very sets, with four-byte NAL lengths.
pub proof fn lemma_avcc_record_parses_back(sps: Seq<u8>, pps: Seq<u8>)
    requires
        4 <= sps.len() <= 0xFFFF,
        pps.len() <= 0xFFFF,
    ensures
        spec_parse_avcc(spec_avcc_record(sps, pps)) == Ok::<
            (nat, Seq<Seq<u8>>, Seq<Seq<u8>>),
            Seq<char>,
        >((4, seq![sps], seq![pps])),
{
    let data = spec_avcc_record(sps, pps);
    let n = sps.len();
    let m = pps.len();
    assert(data.len() == 8 + n + 3 + m);
    assert(data[4] == 0xFF && data[5] == 0xE1);
    assert(data[6] * 256 + data[7] == n);
    assert(data.subrange(8, 8 + n as int) =~= sps);
    let at = 8 + n as int;
    assert(data[at] == 1);
    assert(data[at + 1] * 256 + data[at + 2] == m);
    assert(data.subrange(at + 3, at + 3 + m as int) =~= pps);
    reveal_with_fuel(crate::bitstream::sets_from, 2);
    assert(crate::bitstream::sets_from(data, 6, 0, 1, "SPS"@) == Ok::<(Seq<Seq<u8>>, int), Seq<char>>(
        (seq![sps], at),
    )) by {
        assert(seq![sps] + Seq::<Seq<u8>>::empty() =~= seq![sps]);
    }
    assert(crate::bitstream::sets_from(data, at + 1, 0, 1, "PPS"@) == Ok::<
        (Seq<Seq<u8>>, int),
        Seq<char>,
    >((seq![pps], at + 3 + m))) by {
        assert(seq![pps] + Seq::<Seq<u8>>::empty() =~= seq![pps]);
    }
}

/// When a sample is shown and when it is decoded: the presentation time is its
/// start, and decoding runs ahead of it by the rendering offset (behind it, for
/// a negative one), never before zero.
pub open spec fn spec_sample_timing(start: nat, offset: int, timescale: nat) -> (nat, nat) {
    let pts = spec_scaled(start, timescale);
    let shift = spec_scaled(if offset >= 0 {
        offset as nat
    } else {
        (-offset) as nat
    }, timescale);
    (pts, if offset >= 0 {
        if pts >= shift {
            (pts - shift) as nat
        } else {
            0
        }
    } else {
        pts + shift
    })
}

/// When an MP4 sample is shown and when it is decoded.
///
/// The rendering offset is the gap between decode and display order, and it
/// is signed: with B-frames a picture is displayed after one that was decoded
/// later.
pub fn sample_timing(start_time: u64, rendering_offset: i32, timescale: u64) -> (times: (Duration, Duration))
    ensures
        (times.0@, times.1@) == spec_sample_timing(start_time as nat, rendering_offset as int, timescale as nat),
{
    let pts = scaled(start_time, timescale);
    let dts = if rendering_offset >= 0 {
        pts.saturating_sub(scaled(rendering_offset as u64, timescale))
    } else {
        let magnitude = (-(rendering_offset as i64)) as u64;
        pts.plus(scaled(magnitude, timescale))
    };
    (pts, dts)
}

/// Where a seek lands among the keyframes found so far: the last one due at or
/// before the position, or the first sample when there is none.
pub open spec fn spec_landing(keyframes: Seq<(u32, Duration)>, position: nat) -> u32
    decreases keyframes.len(),
{
    if keyframes.len() == 0 {
        1
    } else if keyframes.last().1@ <= position {
        keyframes.last().0
    } else {
        spec_landing(keyframes.drop_last(), position)
    }
}

/// The sample to start decoding at for a seek to `position`: the last sync
/// sample at or before it, from the `(sample number, when it is due)` pairs
/// found so far, in the order they were found.
///
/// Keyframe rather than exact frame, always: decoding cannot begin anywhere
/// else.
pub fn keyframe_landing(keyframes: &Vec<(u32, Duration)>, position: Duration) -> (sample: u32)
    ensures
        sample == spec_landing(keyframes@, position@),
{
    let mut i = keyframes.len();
    proof {
        assert(keyframes@.subrange(0, i as int) =~= keyframes@);
    }
    while i > 0
        invariant
            i <= keyframes@.len(),
            spec_landing(keyframes@, position@) == spec_landing(keyframes@.subrange(0, i as int), position@),
        decreases i,
    {
        let (number, due) = keyframes[i - 1];
        proof {
            let s = keyframes@.subrange(0, i as int);
            assert(s.drop_last() =~= keyframes@.subrange(0, i - 1));
            assert(s.last() == keyframes@[i - 1]);
        }
        if due.as_nanos() <= position.as_nanos() {
            return number;
        }
        i = i - 1;
    }
    1
}

/// Which read-ahead slot holds the packet to hand out next: the earliest
/// decode time, the first slot among equals; none when every slot is empty.
pub fn earliest_pending(pending: &Vec<Option<Duration>>) -> (next: Option<usize>)
    ensures
        match next {
            Some(i) => i < pending@.len() && pending@[i as int] is Some && (forall|j: int|
                0 <= j < pending@.len() && #[trigger] pending@[j] is Some ==> pending@[i as int]->0@
                    <= pending@[j]->0@) && (forall|j: int|
                0 <= j < i && #[trigger] pending@[j] is Some ==> pending@[i as int]->0@
                    < pending@[j]->0@),
            None => forall|j: int| 0 <= j < pending@.len() ==> #[trigger] pending@[j] is None,
        },
{
    let mut best: Option<usize> = None;
    let mut i: usize = 0;
    while i < pending.len()
        invariant
            i <= pending@.len(),
            match best {
                Some(b) => b < i && pending@[b as int] is Some && (forall|j: int|
                    0 <= j < i && #[trigger] pending@[j] is Some ==> pending@[b as int]->0@
                        <= pending@[j]->0@) && (forall|j: int|
                    0 <= j < b && #[trigger] pending@[j] is Some ==> pending@[b as int]->0@
                        < pending@[j]->0@),
                None => forall|j: int| 0 <= j < i ==> #[trigger] pending@[j] is None,
            },
        decreases pending@.len() - i,
    {
        if let Some(due) = pending[i] {
            match best {
                Some(b) => {
                    let current = match pending[b] {
                        Some(d) => d,
                        None => due,
                    };
                    if due.as_nanos() < current.as_nanos() {
                        best = Some(i);
                    }
                },
                None => {
                    best = Some(i);
                },
            }
        }
        i = i + 1;
    }
    best
}

/// Whether the tracks' numbers never go down.
pub open spec fn ids_ascending(tracks: Seq<TrackInfo>) -> bool {
    forall|i: int, j: int| 0 <= i < j < tracks.len() ==> tracks[i].id <= tracks[j].id
}

/// The same tracks, in ascending order of track number.
///
/// The MP4 reader hands its tracks back keyed in a hash map, whose order is not
/// the file's. Track order is visible to callers picking "the first video
/// track", so it is sorted rather than left to chance.
pub fn order_by_id(tracks: Vec<TrackInfo>) -> (ordered: Vec<TrackInfo>)
    ensures
        ids_ascending(ordered@),
        ordered@.to_multiset() == tracks@.to_multiset(),
{
    let ghost all = tracks@;
    let mut rest = tracks;
    let mut ordered: Vec<TrackInfo> = Vec::new();
    proof {
        assert(all.subrange(0, 0) =~= Seq::<TrackInfo>::empty());
        assert(ordered@ =~= Seq::<TrackInfo>::empty());
        assert(rest@ =~= all.subrange(0, all.len() as int));
    }
    while rest.len() > 0
        invariant
            rest@.len() <= all.len(),
            rest@ =~= all.subrange(all.len() - rest@.len(), all.len() as int),
            ids_ascending(ordered@),
            ordered@.to_multiset() == all.subrange(0, all.len() - rest@.len()).to_multiset(),
        decreases rest@.len(),
    {
        let ghost k = all.len() - rest@.len();
        let track = rest.remove(0);
        proof {
            assert(track == all[k]);
            assert(rest@ =~= all.subrange(k + 1, all.len() as int));
        }
        let mut pos: usize = 0;
        while pos < ordered.len() && ordered[pos].id <= track.id
            invariant
                pos <= ordered@.len(),
                forall|j: int| 0 <= j < pos ==> #[trigger] ordered@[j].id <= track.id,
            decreases ordered@.len() - pos,
        {
            pos = pos + 1;
        }
        let ghost before = ordered@;
        let ghost x = track;
        ordered.insert(pos, track);
        proof {
            assert(ordered@ == before.insert(pos as int, x));
            assert forall|i: int, j: int| 0 <= i < j < ordered@.len() implies ordered@[i].id
                <= ordered@[j].id by {
                if j < pos {
                } else if j == pos {
                } else if i < pos {
                    assert(ordered@[j] == before[j - 1]);
                    if pos < before.len() {
                        assert(before[pos as int].id > x.id);
                    }
                } else if i == pos {
                    assert(before[pos as int].id > x.id);
                    assert(ordered@[j] == before[j - 1]);
                } else {
                    assert(ordered@[i] == before[i - 1]);
                    assert(ordered@[j] == before[j - 1]);
                }
            }
            assert(all.subrange(0, k + 1) =~= all.subrange(0, k).push(x));
            vstd::seq_lib::to_multiset_insert(before, pos as int, x);
            vstd::seq_lib::to_multiset_build(all.subrange(0, k), x);
        }
    }
    proof {
        assert(all.subrange(0, all.len() as int) =~= all);
    }
    ordered
}

/// What an indexed file is, once its tracks have been read: the container
/// identification found, the tracks as given, and seekable, since every sample
/// was indexed when the file was opened.
pub fn indexed_media_info(container: Container, tracks: Vec<TrackInfo>, duration: Duration) -> (info:
    MediaInfo)
    ensures
        info.container == container,
        info.tracks@ == tracks@,
        info.duration == duration,
        info.seekable,
{
    MediaInfo { container, tracks, duration, seekable: true }
}

/// Builds the description of one MP4 track from what the reader says of it.
/// A video track has eight-bit samples, colour guessed from its size, no
/// rotation, and its parameter sets rebuilt into an `avcC` record; anything
/// else is described as carrying no pictures.
pub fn mp4_track(
    id: u32,
    kind: TrackKind,
    codec_id: String,
    width: u16,
    height: u16,
    frame_rate: Option<Rational>,
    duration: Duration,
    sps: Option<&[u8]>,
    pps: Option<&[u8]>,
) -> (t: TrackInfo)
    ensures
        kind != TrackKind::Video ==> is_plain_track(t, id, kind, codec_id@, duration@, Seq::empty()),
        kind == TrackKind::Video ==> track_is(
            t,
            id,
            TrackKind::Video,
            encoding_named(normalized_codec_id(codec_id@)),
            codec_id@,
            width as u32,
            height as u32,
            frame_rate,
            8,
            spec_guess_for(width as u32, height as u32),
            Rotation::Upright,
            duration@,
            match (sps, pps) {
                (Some(s), Some(p)) => spec_avcc_record(s@, p@),
                _ => Seq::empty(),
            },
        ),
{
    if kind != TrackKind::Video {
        let none: Vec<u8> = Vec::new();
        proof {
            assert(none@ =~= Seq::<u8>::empty());
        }
        return plain_track(id, kind, codec_id, duration, none);
    }
    let width = width as u32;
    let height = height as u32;
    video_track(
        id,
        codec_id,
        width,
        height,
        frame_rate,
        8,
        ColorSpace::guess_for(width, height),
        Rotation::Upright,
        duration,
        parameter_sets(sps, pps),
    )
}

/// What a Matroska track's video settings say.
#[derive(Clone, Copy, Debug)]
pub struct MatroskaVideo {
    /// Width in pixels.
    pub width: u32,
    /// Height in pixels.
    pub height: u32,
    /// Bits per channel, where the colour settings state it.
    pub bit_depth: Option<u32>,
    /// The matrix the colour settings name, where it is one of ours.
    pub matrix: Option<Matrix>,
    /// The range the colour settings name, where they name one.
    pub range: Option<Range>,
    /// The frame rate its default frame duration implies.
    pub frame_rate: Option<Rational>,
}

/// Builds the description of one Matroska track from what the file says of
/// it. Matroska states its colour metadata properly, so it is carried through
/// over the guess; eight bits where it states no depth.
pub fn matroska_track(
    id: u32,
    kind: TrackKind,
    codec_id: String,
    extra_data: Vec<u8>,
    duration: Duration,
    video: Option<MatroskaVideo>,
) -> (t: TrackInfo)
    ensures
        match video {
            None => is_plain_track(t, id, kind, codec_id@, duration@, extra_data@),
            Some(v) => track_is(
                t,
                id,
                TrackKind::Video,
                encoding_named(normalized_codec_id(codec_id@)),
                codec_id@,
                v.width,
                v.height,
                v.frame_rate,
                match v.bit_depth {
                    Some(b) => b,
                    None => 8,
                },
                spec_color_from(v.matrix, v.range, v.width, v.height),
                Rotation::Upright,
                duration@,
                extra_data@,
            ),
        },
{
    match video {
        None => plain_track(id, kind, codec_id, duration, extra_data),
        Some(v) => {
            let bit_depth = match v.bit_depth {
                Some(b) => b,
                None => 8,
            };
            let color = color_from(v.matrix, v.range, v.width, v.height);
            video_track(
                id,
                codec_id,
                v.width,
                v.height,
                v.frame_rate,
                bit_depth,
                color,
                Rotation::Upright,
                duration,
                extra_data,
            )
        },
    }
}

/// Ticks per second in a Matroska file whose timestamps count in units of
/// `timestamp_scale` nanoseconds — a millisecond, almost always. A scale of
/// zero is read as one.
pub fn ticks_per_second(timestamp_scale: u64) -> (ticks: u64)
    ensures
        ticks == 1_000_000_000int / (if timestamp_scale == 0 {
            1int
        } else {
            timestamp_scale as int
        }),
{
    let scale = if timestamp_scale == 0 {
        1
    } else {
        timestamp_scale
    };
    1_000_000_000 / scale
}

/// A seek lands on a keyframe due at or before the position, and on the last
/// such keyframe found; only when none was found does it start from the first
/// sample.
pub proof fn lemma_landing_is_last_at_or_before(keyframes: Seq<(u32, Duration)>, position: nat)
    ensures
        (exists|i: int| 0 <= i < keyframes.len() && #[trigger] keyframes[i].1@ <= position) ==> exists|i: int|
            0 <= i < keyframes.len() && keyframes[i].1@ <= position && keyframes[i].0
                == spec_landing(keyframes, position) && forall|j: int|
                i < j < keyframes.len() ==> #[trigger] keyframes[j].1@ > position,
        (forall|i: int| 0 <= i < keyframes.len() ==> #[trigger] keyframes[i].1@ > position)
            ==> spec_landing(keyframes, position) == 1,
    decreases keyframes.len(),
{
    if keyframes.len() > 0 {
        let front = keyframes.drop_last();
        lemma_landing_is_last_at_or_before(front, position);
        let last = keyframes.len() - 1;
        if keyframes[last].1@ <= position {
        } else {
            if exists|i: int| 0 <= i < keyframes.len() && #[trigger] keyframes[i].1@ <= position {
                let i = choose|i: int| 0 <= i < keyframes.len() && #[trigger] keyframes[i].1@ <= position;
                assert(i < last);
                assert(front[i] == keyframes[i]);
                let k = choose|k: int|
                    0 <= k < front.len() && front[k].1@ <= position && front[k].0 == spec_landing(
                        front,
                        position,
                    ) && forall|j: int| k < j < front.len() ==> #[trigger] front[j].1@ > position;
                assert(keyframes[k] == front[k]);
                assert forall|j: int| k < j < keyframes.len() implies #[trigger] keyframes[j].1@
                    > position by {
                    if j < last {
                        assert(keyframes[j] == front[j]);
                    }
                }
            } else {
                assert forall|i: int| 0 <= i < front.len() implies #[trigger] front[i].1@ > position by {
                    assert(front[i] == keyframes[i]);
                }
            }
        }
    }
}

/// Where one track of an indexed file has got to, as the contracts see it.
pub struct CursorView {
    /// The track it reads.
    pub track_id: u32,
    /// The next sample to read; sample numbers are 1-based.
    pub next_sample: nat,
    /// The packet read ahead, if any.
    pub pending: Option<Packet>,
    /// The sync samples found so far, as `(sample number, when it is due)`,
    /// in the order found.
    pub keyframes: Seq<(u32, Duration)>,
    /// How far the keyframe scan has got.
    pub scanned_to: nat,
}

/// Where one track of an indexed file has got to.
///
/// The reading is done around this crate; what is remembered between reads —
/// the next sample, the packet read ahead so interleaving by time reads
/// nothing twice, and the keyframes seen — and what a seek does with it are
/// kept here.
pub struct SampleCursor {
    track_id: u32,
    next_sample: u32,
    pending: Option<Packet>,
    keyframes: Vec<(u32, Duration)>,
    scanned_to: u32,
}

impl View for SampleCursor {
    type V = CursorView;

    closed spec fn view(&self) -> CursorView {
        CursorView {
            track_id: self.track_id,
            next_sample: self.next_sample as nat,
            pending: self.pending,
            keyframes: self.keyframes@,
            scanned_to: self.scanned_to as nat,
        }
    }
}

impl SampleCursor {
    /// A cursor at the first sample of a track, with nothing read.
    pub fn new(track_id: u32) -> (c: SampleCursor)
        ensures
            c@ == (CursorView {
                track_id,
                next_sample: 1,
                pending: None,
                keyframes: Seq::empty(),
                scanned_to: 0,
            }),
    {
        SampleCursor { track_id, next_sample: 1, pending: None, keyframes: Vec::new(), scanned_to: 0 }
    }

    /// The track it reads.
    pub fn track_id(&self) -> (id: u32)
        ensures
            id == self@.track_id,
    {
        self.track_id
    }

    /// The sample to read to fill the read-ahead slot, or nothing when the slot
    /// is already full.
    pub fn wanted(&self) -> (sample: Option<u32>)
        ensures
            sample == (if self@.pending is Some {
                None::<u32>
            } else {
                Some(self@.next_sample as u32)
            }),
    {
        if self.pending.is_some() {
            None
        } else {
            Some(self.next_sample)
        }
    }

    /// Takes the packet read for `sample_number` into the read-ahead slot:
    /// moves on a sample, remembers it if it is a keyframe, and notes how far
    /// the scan has got.
    pub fn accept(&mut self, sample_number: u32, packet: Packet)
        requires
            old(self)@.next_sample < u32::MAX,
        ensures
            final(self)@ == (CursorView {
                next_sample: old(self)@.next_sample + 1,
                pending: Some(packet),
                keyframes: if packet.is_keyframe {
                    old(self)@.keyframes.push((sample_number, packet.pts))
                } else {
                    old(self)@.keyframes
                },
                scanned_to: if sample_number > old(self)@.scanned_to {
                    sample_number as nat
                } else {
                    old(self)@.scanned_to
                },
                ..old(self)@
            }),
    {
        self.next_sample = self.next_sample + 1;
        if packet.is_keyframe {
            self.keyframes.push((sample_number, packet.pts));
        }
        if sample_number > self.scanned_to {
            self.scanned_to = sample_number;
        }
        self.pending = Some(packet);
    }

    /// How far the keyframe scan has got.
    pub fn scanned_to(&self) -> (sample: u32)
        ensures
            sample == self@.scanned_to,
    {
        self.scanned_to
    }

    /// The sample a keyframe scan resumes at: the one after the furthest seen.
    pub fn scan_from(&self) -> (sample: u32)
        requires
            self@.scanned_to < u32::MAX,
        ensures
            sample == self@.scanned_to + 1,
    {
        self.scanned_to + 1
    }

    /// Notes a sample the keyframe scan read, and says whether the scan goes
    /// on: it stops at the first sample due after `position`.
    pub fn note_scanned(&mut self, sample_number: u32, pts: Duration, is_keyframe: bool, position: Duration) -> (more: bool)
        ensures
            final(self)@ == (CursorView {
                keyframes: if is_keyframe {
                    old(self)@.keyframes.push((sample_number, pts))
                } else {
                    old(self)@.keyframes
                },
                scanned_to: sample_number as nat,
                ..old(self)@
            }),
            more == (pts@ <= position@),
    {
        self.scanned_to = sample_number;
        if is_keyframe {
            self.keyframes.push((sample_number, pts));
        }
        pts.as_nanos() <= position.as_nanos()
    }

    /// Where a seek to `position` lands: the last keyframe found at or before
    /// it, or the first sample.
    pub fn landing(&self, position: Duration) -> (sample: u32)
        ensures
            sample == spec_landing(self@.keyframes, position@),
    {
        keyframe_landing(&self.keyframes, position)
    }

    /// Moves to `sample`, dropping whatever was read ahead.
    pub fn rewind(&mut self, sample: u32)
        ensures
            final(self)@ == (CursorView { next_sample: sample as nat, pending: None, ..old(self)@ }),
    {
        self.next_sample = sample;
        self.pending = None;
    }

    /// When the packet read ahead should be decoded, if there is one.
    pub fn pending_dts(&self) -> (dts: Option<Duration>)
        ensures
            dts == (match self@.pending {
                Some(p) => Some(p.dts),
                None => None,
            }),
    {
        match &self.pending {
            Some(packet) => Some(packet.dts),
            None => None,
        }
    }

    /// Hands out the packet read ahead, leaving the slot empty.
    pub fn take_pending(&mut self) -> (packet: Option<Packet>)
        ensures
            packet == old(self)@.pending,
            final(self)@ == (CursorView { pending: None, ..old(self)@ }),
    {
        self.pending.take()
    }
}

/// Whether a sample number names a sample of a track with `count` of them:
/// numbers start at one.
pub fn sample_exists(sample_number: u32, count: u32) -> (b: bool)
    ensures
        b == (1 <= sample_number && sample_number <= count),
{
    sample_number != 0 && sample_number <= count
}

} // verus!
