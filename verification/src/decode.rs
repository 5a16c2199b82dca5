//! Turning compressed packets into pictures.
//!
//! One trait, several backends, and a choice between them. The choice is the
//! interesting part: which decoder exists depends on the platform *and* on what
//! was compiled in, and the two fail differently. A build without the AV1
//! decoder and a Linux box without VA-API both produce "no decoder", and a
//! person needs to know which one they are looking at — so [`open`] says.
//!
//! | Backend | Platform | What it decodes |
//! |---|---|---|
//! | VideoToolbox | macOS, iOS | H.264, HEVC, AV1, VP9 |
//! | Media Foundation | Windows | H.264, HEVC, AV1, VP9 |
//! | MediaCodec | Android | H.264, HEVC, AV1, VP9 |
//! | VA-API | Linux | H.264, HEVC, AV1, VP9, VP8 |
//! | dav1d | anywhere | AV1, in software |
//! | libvpx | anywhere | VP9 and VP8, in software |
//!
//! The platform decoders come first: they are hardware-accelerated, and the
//! patent licence for H.264 and HEVC is the operating system's rather than
//! ours. No backend is compiled into this build yet, so [`open`] refuses
//! honestly, naming what would have taken the work, rather than returning a
//! decoder that produces nothing.

use vstd::prelude::*;

use crate::color::ColorSpace;
use crate::error::{Error, Result};
use crate::frame::Frame;
use crate::identify::{spec_encoding_name, spec_is_royalty_free, Encoding};
use crate::media::{Packet, TrackInfo};
use crate::text::{decimal, join, joined, plain_char, push_decimal, quoted};

verus! {

/// Something that turns packets into frames.
///
/// Decoders are stateful and are not `Sync`: one belongs to one thread, which
/// is how every platform decoder works anyway. They are `Send` so that thread
/// need not be the one that opened the file.
pub trait Decoder: Send {
    /// What this decodes.
    fn encoding(&self) -> Encoding;

    /// Feeds one packet in.
    ///
    /// Returns `None` when the decoder has taken the packet but has no picture
    /// yet, which is normal: B-frames mean output lags input by a frame or
    /// more, and a hardware decoder may hold several.
    fn decode(&mut self, packet: &Packet) -> Result<Option<Frame>>;

    /// Everything still held inside, at the end of a stream.
    ///
    /// Skipping this loses the last few frames of every file — the ones the
    /// decoder was holding for reordering.
    fn flush(&mut self) -> Result<Vec<Frame>>;

    /// Throws away all state, for a seek.
    fn reset(&mut self) -> Result<()>;

    /// Whether the pictures come from silicon dedicated to the job.
    fn is_hardware(&self) -> bool;
}

/// The family of operating system a program runs on, as far as decoders care.
#[derive(Clone, Copy, Debug, PartialEq, Eq, Hash, Structural)]
pub enum Platform {
    /// macOS and iOS.
    Apple,
    /// Windows.
    Windows,
    /// Android.
    Android,
    /// Any other Unix: Linux and the BSDs.
    Unix,
    /// Anything else.
    Other,
}

/// Which implementation decodes.
#[derive(Clone, Copy, Debug, PartialEq, Eq, Hash, Structural)]
#[non_exhaustive]
pub enum Backend {
    /// Apple's, on macOS and iOS.
    VideoToolbox,
    /// Microsoft's, on Windows.
    MediaFoundation,
    /// Google's, on Android.
    MediaCodec,
    /// The Linux hardware path.
    VaApi,
    /// dav1d, in software, anywhere.
    Dav1d,
    /// libvpx, in software, anywhere.
    LibVpx,
}

/// Every backend, in the order [`open`] tries them.
///
/// Hardware first: it is faster, cooler, and — for H.264 and HEVC — the only
/// path that does not raise a licensing question.
pub const BACKENDS: [Backend; 6] = [
    Backend::VideoToolbox,
    Backend::MediaFoundation,
    Backend::MediaCodec,
    Backend::VaApi,
    Backend::Dav1d,
    Backend::LibVpx,
];

/// Whether a backend runs on dedicated hardware.
pub open spec fn spec_is_hardware(b: Backend) -> bool {
    !(b is Dav1d || b is LibVpx)
}

/// The cargo feature that compiles a backend in.
pub open spec fn spec_feature(b: Backend) -> Seq<char> {
    if b is Dav1d {
        "decode-av1"@
    } else if b is LibVpx {
        "decode-vp9"@
    } else {
        "decode-platform"@
    }
}

/// What a backend can decode, where it exists.
pub open spec fn spec_handles(b: Backend, e: Encoding) -> bool {
    match b {
        Backend::VideoToolbox | Backend::MediaFoundation | Backend::MediaCodec => e is H264 || e is H265
            || e is Av1 || e is Vp9,
        Backend::VaApi => e is H264 || e is H265 || e is Av1 || e is Vp9 || e is Vp8,
        Backend::Dav1d => e is Av1,
        Backend::LibVpx => e is Vp9 || e is Vp8,
    }
}

/// Whether a backend exists on a platform, whatever is compiled in.
pub open spec fn spec_exists_on(b: Backend, p: Platform) -> bool {
    match b {
        Backend::VideoToolbox => p is Apple,
        Backend::MediaFoundation => p is Windows,
        Backend::MediaCodec => p is Android,
        Backend::VaApi => p is Unix,
        Backend::Dav1d | Backend::LibVpx => true,
    }
}

/// The name a person knows a backend by.
pub open spec fn spec_backend_name(b: Backend) -> Seq<char> {
    match b {
        Backend::VideoToolbox => "VideoToolbox"@,
        Backend::MediaFoundation => "Media Foundation"@,
        Backend::MediaCodec => "MediaCodec"@,
        Backend::VaApi => "VA-API"@,
        Backend::Dav1d => "dav1d"@,
        Backend::LibVpx => "libvpx"@,
    }
}

/// The backends, in the order they are tried.
pub open spec fn all_backends() -> Seq<Backend> {
    seq![
        Backend::VideoToolbox,
        Backend::MediaFoundation,
        Backend::MediaCodec,
        Backend::VaApi,
        Backend::Dav1d,
        Backend::LibVpx,
    ]
}

/// The backends that would decode `e` on `p` had they been compiled in, in the
/// order they are tried.
pub open spec fn spec_missing(e: Encoding, p: Platform) -> Seq<Backend> {
    all_backends().filter(|b: Backend| spec_handles(b, e) && spec_exists_on(b, p))
}

/// The features that would supply those backends, sorted, each once.
pub open spec fn spec_features(e: Encoding, p: Platform) -> Seq<Seq<char>> {
    let missing = spec_missing(e, p);
    (if missing.contains(Backend::Dav1d) {
        seq!["decode-av1"@]
    } else {
        Seq::empty()
    }) + (if exists|i: int| 0 <= i < missing.len() && spec_is_hardware(#[trigger] missing[i]) {
        seq!["decode-platform"@]
    } else {
        Seq::empty()
    }) + (if missing.contains(Backend::LibVpx) {
        seq!["decode-vp9"@]
    } else {
        Seq::empty()
    })
}

/// What a person could do about there being no decoder for `e` on `p`.
pub open spec fn spec_remedy(e: Encoding, p: Platform) -> Seq<char> {
    let missing = spec_missing(e, p);
    if missing.len() == 0 {
        "nothing on this platform decodes "@ + spec_encoding_name(e)
            + ", and vtome has no software fallback for it — transcode to AV1 first"@
    } else {
        let features = spec_features(e, p);
        "enable the "@ + joined(features, " or "@) + " feature"@ + (if features.len() == 1 {
            ""@
        } else {
            "s"@
        }) + " ("@ + joined(missing.map_values(|b: Backend| spec_backend_name(b)), ", "@)
            + " would handle it here)"@
    }
}

impl Backend {
    /// Whether this backend uses dedicated hardware.
    pub fn is_hardware(self) -> (b: bool)
        ensures
            b == spec_is_hardware(self),
    {
        match self {
            Backend::Dav1d | Backend::LibVpx => false,
            _ => true,
        }
    }

    /// The cargo feature that compiles it in.
    pub fn feature(self) -> (f: &'static str)
        ensures
            f@ == spec_feature(self),
    {
        match self {
            Backend::VideoToolbox | Backend::MediaFoundation | Backend::MediaCodec
            | Backend::VaApi => "decode-platform",
            Backend::Dav1d => "decode-av1",
            Backend::LibVpx => "decode-vp9",
        }
    }

    /// What it can decode, where it exists.
    ///
    /// The platform decoders all take the patented pair, which is the reason
    /// to prefer them; what else they take varies by version and is asked at
    /// run time rather than assumed here.
    pub fn handles(self, encoding: Encoding) -> (b: bool)
        ensures
            b == spec_handles(self, encoding),
    {
        match self {
            Backend::VideoToolbox | Backend::MediaFoundation | Backend::MediaCodec => match encoding {
                Encoding::H264 | Encoding::H265 | Encoding::Av1 | Encoding::Vp9 => true,
                _ => false,
            },
            Backend::VaApi => match encoding {
                Encoding::H264 | Encoding::H265 | Encoding::Av1 | Encoding::Vp9 | Encoding::Vp8 => true,
                _ => false,
            },
            Backend::Dav1d => match encoding {
                Encoding::Av1 => true,
                _ => false,
            },
            Backend::LibVpx => match encoding {
                Encoding::Vp9 | Encoding::Vp8 => true,
                _ => false,
            },
        }
    }

    /// Whether this build compiled it in *and* it exists here.
    ///
    /// No decoder backend is compiled into this build, so the answer is no for
    /// every one of them, wherever it runs.
    pub fn is_available(self) -> (b: bool)
        ensures
            !b,
    {
        let compiled = false;
        compiled
    }

    /// Whether the platform half is satisfied, ignoring features.
    pub fn exists_on(self, platform: Platform) -> (b: bool)
        ensures
            b == spec_exists_on(self, platform),
    {
        match self {
            Backend::VideoToolbox => platform == Platform::Apple,
            Backend::MediaFoundation => platform == Platform::Windows,
            Backend::MediaCodec => platform == Platform::Android,
            Backend::VaApi => platform == Platform::Unix,
            Backend::Dav1d | Backend::LibVpx => true,
        }
    }

    /// The name a person knows it by, as messages print it.
    pub fn name(self) -> (s: &'static str)
        ensures
            s@ == spec_backend_name(self),
    {
        match self {
            Backend::VideoToolbox => "VideoToolbox",
            Backend::MediaFoundation => "Media Foundation",
            Backend::MediaCodec => "MediaCodec",
            Backend::VaApi => "VA-API",
            Backend::Dav1d => "dav1d",
            Backend::LibVpx => "libvpx",
        }
    }
}

/// What a decoder needs to know before the first packet.
#[derive(Clone, Debug)]
pub struct DecoderConfig {
    /// What to decode.
    pub encoding: Encoding,
    /// Picture width.
    pub width: u32,
    /// Picture height.
    pub height: u32,
    /// Bits per sample.
    pub bit_depth: u32,
    /// What the samples will mean.
    pub color: ColorSpace,
    /// The codec's configuration record — `avcC`, `hvcC`, `av1C`. Without it a
    /// decoder cannot start; see [`crate::bitstream`].
    pub extra_data: Vec<u8>,
}

impl DecoderConfig {
    /// The configuration a demuxed track implies.
    ///
    /// # Errors
    ///
    /// [`Error::Unsupported`] if the track's encoding is not one this crate
    /// knows at all, which is different from having no decoder for it. The
    /// message quotes the track's codec string as `{:?}` writes it.
    pub fn from_track(track: &TrackInfo) -> (r: Result<DecoderConfig>)
        ensures
            match track.encoding {
                Some(encoding) => r matches Ok(config) && config.encoding == encoding
                    && config.width == track.width && config.height == track.height
                    && config.bit_depth == track.bit_depth && config.color == track.color
                    && config.extra_data@ == track.extra_data@,
                None => r matches Err(Error::Unsupported { what }) && (exists|shown: Seq<char>|
                    shown.len() >= 2 && shown[0] == '"' && shown.last() == '"' && what@ == "track "@
                        + decimal(track.id as nat) + " is "@ + shown
                        + ", which vtome does not recognise as a video encoding"@ && ((forall|i: int|
                        0 <= i < track.codec_id@.len() ==> #[trigger] plain_char(track.codec_id@[i]))
                        ==> shown == seq!['"'] + track.codec_id@ + seq!['"'])),
            },
    {
        match track.encoding {
            Some(encoding) => {
                let extra_data = track.extra_data.clone();
                proof {
                    assert(extra_data@ =~= track.extra_data@);
                }
                Ok(DecoderConfig {
                    encoding,
                    width: track.width,
                    height: track.height,
                    bit_depth: track.bit_depth,
                    color: track.color,
                    extra_data,
                })
            },
            None => {
                let mut what = String::from_str("track ");
                push_decimal(&mut what, track.id as u64);
                what.append(" is ");
                let shown = quoted(track.codec_id.as_str());
                what.append(shown.as_str());
                what.append(", which vtome does not recognise as a video encoding");
                proof {
                    assert(what@ =~= "track "@ + decimal(track.id as nat) + " is "@ + shown@
                        + ", which vtome does not recognise as a video encoding"@);
                }
                Err(Error::Unsupported { what })
            },
        }
    }
}

/// Which backends could decode this, here, in this build: none, since no
/// backend is compiled in.
pub fn backends_for(encoding: Encoding) -> (found: Vec<Backend>)
    ensures
        found@.len() == 0,
{
    let mut found: Vec<Backend> = Vec::new();
    let mut i: usize = 0;
    while i < 6
        invariant
            i <= 6,
            found@.len() == 0,
        decreases 6 - i,
    {
        let backend = BACKENDS[i];
        if backend.handles(encoding) && backend.is_available() {
            found.push(backend);
        }
        i = i + 1;
    }
    found
}

/// Whether `e` reports that nothing decodes `encoding`, with this remedy.
pub open spec fn is_no_decoder(e: Error, encoding: Encoding, remedy: Seq<char>) -> bool {
    e matches Error::NoDecoder { encoding: enc, remedy: r } && enc == encoding && r@ == remedy
}

/// A decoder for this configuration, on this platform.
///
/// # Errors
///
/// [`Error::NoDecoder`], whose `remedy` names the feature to turn on or the
/// platform that would have handled it — the two ways this fails are not the
/// same problem and should not read alike. Nothing is compiled in yet, so
/// this is always the answer.
pub fn open(config: &DecoderConfig, platform: Platform) -> (r: Result<Box<dyn Decoder>>)
    ensures
        r matches Err(e) && is_no_decoder(e, config.encoding, spec_remedy(config.encoding, platform)),
{
    let candidates = backends_for(config.encoding);
    if candidates.len() == 0 {
        return Err(Error::NoDecoder {
            encoding: config.encoding,
            remedy: remedy_for(config.encoding, platform),
        });
    }
    // A backend that exists but is not written yet is an error rather than a
    // decoder that returns no frames: a silent black window is the hardest
    // kind of bug to find.
    let backend = candidates[0];
    let mut remedy = String::from_str(backend.name());
    remedy.append(" would take this and is not implemented yet; nothing decodes ");
    remedy.append(config.encoding.name());
    remedy.append(" in this build");
    Err(Error::NoDecoder { encoding: config.encoding, remedy })
}

/// What a person could do about there being no decoder for `encoding` on
/// `platform`.
pub fn remedy_for(encoding: Encoding, platform: Platform) -> (remedy: String)
    ensures
        remedy@ == spec_remedy(encoding, platform),
{
    // Which backends *would* have handled it, had they been compiled in?
    let mut missing: Vec<Backend> = Vec::new();
    let mut names: Vec<&str> = Vec::new();
    let mut i: usize = 0;
    let ghost all = all_backends();
    let ghost keep = |b: Backend| spec_handles(b, encoding) && spec_exists_on(b, platform);
    proof {
        assert(all.subrange(0, 0).filter(keep) =~= Seq::<Backend>::empty());
    }
    while i < 6
        invariant
            all == all_backends(),
            keep == (|b: Backend| spec_handles(b, encoding) && spec_exists_on(b, platform)),
            i <= 6,
            missing@ == all.subrange(0, i as int).filter(keep),
            names@.len() == missing@.len(),
            forall|j: int| 0 <= j < names@.len() ==> #[trigger] names@[j]@ == spec_backend_name(missing@[j]),
        decreases 6 - i,
    {
        let backend = BACKENDS[i];
        proof {
            assert(backend == all[i as int]);
            let next = all.subrange(0, i + 1);
            assert(next.drop_last() =~= all.subrange(0, i as int));
            assert(next.last() == backend);
            reveal(Seq::filter);
        }
        if backend.handles(encoding) && backend.exists_on(platform) {
            let name = backend.name();
            missing.push(backend);
            names.push(name);
        }
        i = i + 1;
    }
    proof {
        assert(all.subrange(0, 6) =~= all);
        assert(names@.map_values(|s: &str| s@) =~= missing@.map_values(|b: Backend| spec_backend_name(b)));
    }
    if missing.len() == 0 {
        let mut remedy = String::from_str("nothing on this platform decodes ");
        remedy.append(encoding.name());
        remedy.append(", and vtome has no software fallback for it — transcode to AV1 first");
        return remedy;
    }
    let mut av1 = false;
    let mut hardware = false;
    let mut vp9 = false;
    let mut k: usize = 0;
    while k < missing.len()
        invariant
            k <= missing@.len(),
            av1 == exists|j: int| 0 <= j < k && missing@[j] == Backend::Dav1d,
            hardware == exists|j: int| 0 <= j < k && spec_is_hardware(#[trigger] missing@[j]),
            vp9 == exists|j: int| 0 <= j < k && missing@[j] == Backend::LibVpx,
        decreases missing@.len() - k,
    {
        let backend = missing[k];
        match backend {
            Backend::Dav1d => {
                av1 = true;
            },
            Backend::LibVpx => {
                vp9 = true;
            },
            _ => {
                hardware = true;
            },
        }
        k = k + 1;
    }
    let mut features: Vec<&str> = Vec::new();
    if av1 {
        features.push("decode-av1");
    }
    if hardware {
        features.push("decode-platform");
    }
    if vp9 {
        features.push("decode-vp9");
    }
    proof {
        assert(av1 == missing@.contains(Backend::Dav1d));
        assert(vp9 == missing@.contains(Backend::LibVpx));
        assert(features@.map_values(|s: &str| s@) =~= spec_features(encoding, platform));
    }
    let mut remedy = String::from_str("enable the ");
    let listed = join(&features, " or ");
    remedy.append(listed.as_str());
    remedy.append(" feature");
    if features.len() != 1 {
        remedy.append("s");
    }
    remedy.append(" (");
    let handlers = join(&names, ", ");
    remedy.append(handlers.as_str());
    remedy.append(" would handle it here)");
    proof {
        reveal_strlit("");
        assert(remedy@ =~= spec_remedy(encoding, platform));
    }
    remedy
}

/// On any platform at most one platform backend exists, and the software
/// ones exist everywhere.
pub proof fn lemma_one_platform_backend(platform: Platform)
    ensures
        (if spec_exists_on(Backend::VideoToolbox, platform) {
            1int
        } else {
            0
        }) + (if spec_exists_on(Backend::MediaFoundation, platform) {
            1int
        } else {
            0
        }) + (if spec_exists_on(Backend::MediaCodec, platform) {
            1int
        } else {
            0
        }) + (if spec_exists_on(Backend::VaApi, platform) {
            1int
        } else {
            0
        }) <= 1,
        spec_exists_on(Backend::Dav1d, platform),
        spec_exists_on(Backend::LibVpx, platform),
{
}

/// The patented pair is only ever offered by the platform backends, whose
/// licence is the operating system's.
pub proof fn lemma_patented_only_on_hardware(b: Backend, e: Encoding)
    requires
        e is H264 || e is H265,
        spec_handles(b, e),
    ensures
        spec_is_hardware(b),
{
}

/// Which encodings the backends take. Every platform decoder takes the
/// patented pair, and AV1 and VP9 besides; VA-API takes VP8 as well; dav1d
/// takes AV1 alone, and libvpx VP9 and VP8. No backend takes an encoding
/// outside those five.
pub proof fn lemma_backend_table(b: Backend, e: Encoding)
    ensures
        spec_is_hardware(b) ==> spec_handles(b, Encoding::H264) && spec_handles(b, Encoding::H265)
            && spec_handles(b, Encoding::Av1) && spec_handles(b, Encoding::Vp9),
        spec_handles(Backend::VaApi, Encoding::Vp8),
        spec_handles(Backend::Dav1d, e) <==> e == Encoding::Av1,
        spec_handles(Backend::LibVpx, e) <==> (e == Encoding::Vp9 || e == Encoding::Vp8),
        spec_handles(b, e) ==> (e == Encoding::H264 || e == Encoding::H265 || e == Encoding::Av1
            || e == Encoding::Vp9 || e == Encoding::Vp8),
{
}

/// VA-API takes everything any backend takes: whatever some other backend
/// decodes, the Linux hardware path decodes too.
pub proof fn lemma_vaapi_takes_everything(b: Backend, e: Encoding)
    requires
        spec_handles(b, e),
    ensures
        spec_handles(Backend::VaApi, e),
{
}

/// Everything the software backends decode is royalty-free: the patented
/// encodings are only ever read through a decoder the platform licensed.
pub proof fn lemma_software_decodes_only_royalty_free(b: Backend, e: Encoding)
    requires
        !spec_is_hardware(b),
        spec_handles(b, e),
    ensures
        spec_is_royalty_free(e),
{
}

} // verus!
