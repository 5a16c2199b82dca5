//! What a file is, read from its first bytes rather than its name.
//!
//! An extension is a claim, not evidence: `.mp4` on a Matroska file is common
//! enough that trusting it produces a demuxer error three layers down instead
//! of a clear answer here. Magic bytes are cheap and they do not lie.

use vstd::prelude::*;

use crate::text::{hex_byte, push_hex_byte};

verus! {

/// How many bytes identification wants. A little more than any signature needs,
/// because Matroska's DocType sits past the EBML header rather than at a fixed
/// offset.
pub const PROBE_BYTES: usize = 4096;

/// The wrapper a picture or a video arrives in.
#[derive(Clone, Copy, Debug, PartialEq, Eq, Hash, Structural)]
#[non_exhaustive]
pub enum Container {
    /// ISO base media: `.mp4`, `.m4v`, `.mov`.
    Mp4,
    /// Matroska, the general case.
    Matroska,
    /// Matroska restricted to royalty-free codecs, which is what vtome writes.
    WebM,
    /// AVI. Old, common in archives, and not something this crate writes.
    Avi,
    /// Ogg, usually Theora if it holds video at all.
    Ogg,
    /// AV1 in an ISOBMFF still image — an image by structure, video by codec.
    Avif,
    /// HEIC/HEIF, the same idea with HEVC inside.
    Heif,
    /// PNG.
    Png,
    /// JPEG.
    Jpeg,
    /// GIF, which may be animated.
    Gif,
    /// WebP, which may be animated.
    WebP,
    /// BMP.
    Bmp,
    /// TIFF.
    Tiff,
}

/// The still formats, decoded through the image path rather than a video
/// decoder.
pub open spec fn spec_is_image(c: Container) -> bool {
    c is Png || c is Jpeg || c is Gif || c is WebP || c is Bmp || c is Tiff
}

/// The containers a demuxer here opens.
pub open spec fn spec_is_demuxable(c: Container) -> bool {
    c is Mp4 || c is Matroska || c is WebM || c is Avif || c is Heif
}

/// The usual extension.
pub open spec fn spec_extension(c: Container) -> Seq<char> {
    match c {
        Container::Mp4 => "mp4"@,
        Container::Matroska => "mkv"@,
        Container::WebM => "webm"@,
        Container::Avi => "avi"@,
        Container::Ogg => "ogv"@,
        Container::Avif => "avif"@,
        Container::Heif => "heic"@,
        Container::Png => "png"@,
        Container::Jpeg => "jpg"@,
        Container::Gif => "gif"@,
        Container::WebP => "webp"@,
        Container::Bmp => "bmp"@,
        Container::Tiff => "tiff"@,
    }
}

/// The name a person knows the container by.
pub open spec fn spec_container_name(c: Container) -> Seq<char> {
    match c {
        Container::Mp4 => "MP4"@,
        Container::Matroska => "Matroska"@,
        Container::WebM => "WebM"@,
        Container::Avi => "AVI"@,
        Container::Ogg => "Ogg"@,
        Container::Avif => "AVIF"@,
        Container::Heif => "HEIF"@,
        Container::Png => "PNG"@,
        Container::Jpeg => "JPEG"@,
        Container::Gif => "GIF"@,
        Container::WebP => "WebP"@,
        Container::Bmp => "BMP"@,
        Container::Tiff => "TIFF"@,
    }
}

impl Container {
    /// Whether this is a still-image (or animated-image) format, handled
    /// through the image path rather than a video decoder.
    ///
    /// AVIF and HEIF are *not* in this set: the picture inside is an AV1 or
    /// HEVC keyframe, so they go down the video path.
    pub fn is_image(self) -> (b: bool)
        ensures
            b == spec_is_image(self),
    {
        match self {
            Container::Png | Container::Jpeg | Container::Gif | Container::WebP | Container::Bmp
            | Container::Tiff => true,
            _ => false,
        }
    }

    /// Whether this crate can demux it. AVI and Ogg identify but do not open.
    pub fn is_demuxable(self) -> (b: bool)
        ensures
            b == spec_is_demuxable(self),
    {
        match self {
            Container::Mp4 | Container::Matroska | Container::WebM | Container::Avif
            | Container::Heif => true,
            _ => false,
        }
    }

    /// The usual extension, for messages and for naming an output file.
    pub fn extension(self) -> (s: &'static str)
        ensures
            s@ == spec_extension(self),
    {
        match self {
            Container::Mp4 => "mp4",
            Container::Matroska => "mkv",
            Container::WebM => "webm",
            Container::Avi => "avi",
            Container::Ogg => "ogv",
            Container::Avif => "avif",
            Container::Heif => "heic",
            Container::Png => "png",
            Container::Jpeg => "jpg",
            Container::Gif => "gif",
            Container::WebP => "webp",
            Container::Bmp => "bmp",
            Container::Tiff => "tiff",
        }
    }

    /// The name a person knows it by, as messages print it.
    pub fn name(self) -> (s: &'static str)
        ensures
            s@ == spec_container_name(self),
    {
        match self {
            Container::Mp4 => "MP4",
            Container::Matroska => "Matroska",
            Container::WebM => "WebM",
            Container::Avi => "AVI",
            Container::Ogg => "Ogg",
            Container::Avif => "AVIF",
            Container::Heif => "HEIF",
            Container::Png => "PNG",
            Container::Jpeg => "JPEG",
            Container::Gif => "GIF",
            Container::WebP => "WebP",
            Container::Bmp => "BMP",
            Container::Tiff => "TIFF",
        }
    }
}

/// How the pictures inside are compressed.
#[derive(Clone, Copy, Debug, PartialEq, Eq, Hash, Structural)]
#[non_exhaustive]
pub enum Encoding {
    /// H.264 / AVC. Patent-pooled: decodable through the OS, never written.
    H264,
    /// H.265 / HEVC. Patent-pooled twice over, for the same treatment.
    H265,
    /// AV1. Royalty-free, and what vtome writes by default.
    Av1,
    /// VP9. Royalty-free, and the fallback for hardware that predates AV1.
    Vp9,
    /// VP8. Royalty-free, superseded by VP9.
    Vp8,
    /// Theora. Royalty-free and obsolete; identified, not decoded.
    Theora,
    /// Apple ProRes. Intermediate format, not a delivery one.
    ProRes,
    /// MPEG-4 Part 2 (DivX/Xvid).
    Mpeg4Part2,
    /// Motion JPEG.
    MotionJpeg,
    /// A still image, decoded by the image path.
    Still,
}

/// The encodings nobody charges for.
pub open spec fn spec_is_royalty_free(e: Encoding) -> bool {
    e is Av1 || e is Vp9 || e is Vp8 || e is Theora || e is Still
}

/// The encodings vtome may be asked to produce.
pub open spec fn spec_is_encodable(e: Encoding) -> bool {
    e is Av1 || e is Vp9
}

/// The MP4 sample-entry code.
pub open spec fn spec_fourcc(e: Encoding) -> Seq<char> {
    match e {
        Encoding::H264 => "avc1"@,
        Encoding::H265 => "hvc1"@,
        Encoding::Av1 => "av01"@,
        Encoding::Vp9 => "vp09"@,
        Encoding::Vp8 => "vp08"@,
        Encoding::Theora => "theo"@,
        Encoding::ProRes => "apcn"@,
        Encoding::Mpeg4Part2 => "mp4v"@,
        Encoding::MotionJpeg => "mjpg"@,
        Encoding::Still => "still"@,
    }
}

/// The name a person knows the encoding by.
pub open spec fn spec_encoding_name(e: Encoding) -> Seq<char> {
    match e {
        Encoding::H264 => "H.264"@,
        Encoding::H265 => "HEVC"@,
        Encoding::Av1 => "AV1"@,
        Encoding::Vp9 => "VP9"@,
        Encoding::Vp8 => "VP8"@,
        Encoding::Theora => "Theora"@,
        Encoding::ProRes => "ProRes"@,
        Encoding::Mpeg4Part2 => "MPEG-4 Part 2"@,
        Encoding::MotionJpeg => "Motion JPEG"@,
        Encoding::Still => "still image"@,
    }
}

/// A character with the Unicode `White_Space` property.
pub open spec fn is_white_space(c: char) -> bool {
    let u = c as u32;
    (0x09 <= u && u <= 0x0D) || u == 0x20 || u == 0x85 || u == 0xA0 || u == 0x1680 || (0x2000
        <= u && u <= 0x200A) || u == 0x2028 || u == 0x2029 || u == 0x202F || u == 0x205F || u
        == 0x3000
}

/// A character with ASCII upper case folded to lower, anything else as it was.
pub open spec fn ascii_lower(c: char) -> char {
    if 'A' <= c && c <= 'Z' {
        ((c as u32) + 32) as char
    } else {
        c
    }
}

/// Leading white space removed.
pub open spec fn trim_front(s: Seq<char>) -> Seq<char>
    decreases s.len(),
{
    if s.len() > 0 && is_white_space(s[0]) {
        trim_front(s.drop_first())
    } else {
        s
    }
}

/// Trailing white space removed.
pub open spec fn trim_back(s: Seq<char>) -> Seq<char>
    decreases s.len(),
{
    if s.len() > 0 && is_white_space(s.last()) {
        trim_back(s.drop_last())
    } else {
        s
    }
}

/// A codec string as it is compared: folded to lower case, white space trimmed
/// from both ends.
pub open spec fn normalized_codec_id(id: Seq<char>) -> Seq<char> {
    trim_back(trim_front(id.map_values(|c: char| ascii_lower(c))))
}

/// The encoding a normalised codec string names.
pub open spec fn encoding_named(t: Seq<char>) -> Option<Encoding> {
    if t == "avc1"@ || t == "avc3"@ || t == "h264"@ || t == "v_mpeg4/iso/avc"@ {
        Some(Encoding::H264)
    } else if t == "hvc1"@ || t == "hev1"@ || t == "h265"@ || t == "hevc"@ || t
        == "v_mpegh/iso/hevc"@ {
        Some(Encoding::H265)
    } else if t == "av01"@ || t == "av1"@ || t == "v_av1"@ {
        Some(Encoding::Av1)
    } else if t == "vp09"@ || t == "vp9"@ || t == "v_vp9"@ {
        Some(Encoding::Vp9)
    } else if t == "vp08"@ || t == "vp8"@ || t == "v_vp8"@ {
        Some(Encoding::Vp8)
    } else if t == "theo"@ || t == "v_theora"@ {
        Some(Encoding::Theora)
    } else if t == "mp4v"@ || t == "v_mpeg4/iso/asp"@ {
        Some(Encoding::Mpeg4Part2)
    } else if t == "mjpg"@ || t == "mjpeg"@ || t == "v_mjpeg"@ {
        Some(Encoding::MotionJpeg)
    } else if (t.len() >= 3 && t.subrange(0, 3) == "apc"@) || t == "ap4h"@ {
        Some(Encoding::ProRes)
    } else {
        None
    }
}

impl Encoding {
    /// Whether using this costs nothing in licence fees.
    ///
    /// Everything vtome *writes* answers true here, and everything that answers
    /// false is read through a decoder the operating system already licensed.
    pub fn is_royalty_free(self) -> (b: bool)
        ensures
            b == spec_is_royalty_free(self),
    {
        match self {
            Encoding::Av1 | Encoding::Vp9 | Encoding::Vp8 | Encoding::Theora | Encoding::Still => true,
            _ => false,
        }
    }

    /// Whether vtome can be asked to *produce* this. Deliberately narrower than
    /// [`is_royalty_free`](Encoding::is_royalty_free).
    pub fn is_encodable(self) -> (b: bool)
        ensures
            b == spec_is_encodable(self),
    {
        match self {
            Encoding::Av1 | Encoding::Vp9 => true,
            _ => false,
        }
    }

    /// The four-character code this encoding appears as in an MP4 sample entry.
    pub fn fourcc(self) -> (s: &'static str)
        ensures
            s@ == spec_fourcc(self),
    {
        match self {
            Encoding::H264 => "avc1",
            Encoding::H265 => "hvc1",
            Encoding::Av1 => "av01",
            Encoding::Vp9 => "vp09",
            Encoding::Vp8 => "vp08",
            Encoding::Theora => "theo",
            Encoding::ProRes => "apcn",
            Encoding::Mpeg4Part2 => "mp4v",
            Encoding::MotionJpeg => "mjpg",
            Encoding::Still => "still",
        }
    }

    /// The name a person knows it by, as messages print it.
    pub fn name(self) -> (s: &'static str)
        ensures
            s@ == spec_encoding_name(self),
    {
        match self {
            Encoding::H264 => "H.264",
            Encoding::H265 => "HEVC",
            Encoding::Av1 => "AV1",
            Encoding::Vp9 => "VP9",
            Encoding::Vp8 => "VP8",
            Encoding::Theora => "Theora",
            Encoding::ProRes => "ProRes",
            Encoding::Mpeg4Part2 => "MPEG-4 Part 2",
            Encoding::MotionJpeg => "Motion JPEG",
            Encoding::Still => "still image",
        }
    }

    /// The encoding a codec string names, as MP4 sample entries and Matroska
    /// codec IDs spell it.
    ///
    /// Case-insensitive, and tolerant of the several spellings each format has
    /// collected — `hvc1` and `hev1` are both HEVC, `V_AV1` and `av01` are both
    /// AV1.
    pub fn from_codec_id(id: &str) -> (e: Option<Encoding>)
        ensures
            e == encoding_named(normalized_codec_id(id@)),
    {
        let chars = lowered_chars(id);
        let (lo, hi) = trimmed_bounds(&chars);
        let ghost t = chars@.subrange(lo as int, hi as int);
        let c = &chars;
        if range_is(c, lo, hi, "avc1") || range_is(c, lo, hi, "avc3") || range_is(c, lo, hi, "h264")
            || range_is(c, lo, hi, "v_mpeg4/iso/avc") {
            Some(Encoding::H264)
        } else if range_is(c, lo, hi, "hvc1") || range_is(c, lo, hi, "hev1") || range_is(
            c,
            lo,
            hi,
            "h265",
        ) || range_is(c, lo, hi, "hevc") || range_is(c, lo, hi, "v_mpegh/iso/hevc") {
            Some(Encoding::H265)
        } else if range_is(c, lo, hi, "av01") || range_is(c, lo, hi, "av1") || range_is(
            c,
            lo,
            hi,
            "v_av1",
        ) {
            Some(Encoding::Av1)
        } else if range_is(c, lo, hi, "vp09") || range_is(c, lo, hi, "vp9") || range_is(
            c,
            lo,
            hi,
            "v_vp9",
        ) {
            Some(Encoding::Vp9)
        } else if range_is(c, lo, hi, "vp08") || range_is(c, lo, hi, "vp8") || range_is(
            c,
            lo,
            hi,
            "v_vp8",
        ) {
            Some(Encoding::Vp8)
        } else if range_is(c, lo, hi, "theo") || range_is(c, lo, hi, "v_theora") {
            Some(Encoding::Theora)
        } else if range_is(c, lo, hi, "mp4v") || range_is(c, lo, hi, "v_mpeg4/iso/asp") {
            Some(Encoding::Mpeg4Part2)
        } else if range_is(c, lo, hi, "mjpg") || range_is(c, lo, hi, "mjpeg") || range_is(
            c,
            lo,
            hi,
            "v_mjpeg",
        ) {
            Some(Encoding::MotionJpeg)
        } else if (hi - lo >= 3 && range_is(c, lo, lo + 3, "apc")) || range_is(c, lo, hi, "ap4h") {
            proof {
                reveal_strlit("apc");
                assert(t.len() >= 3 ==> t.subrange(0, 3) =~= chars@.subrange(lo as int, lo + 3));
            }
            Some(Encoding::ProRes)
        } else {
            proof {
                reveal_strlit("apc");
                if t.len() >= 3 {
                    assert(t.subrange(0, 3) =~= chars@.subrange(lo as int, lo + 3));
                }
            }
            None
        }
    }
}

/// Whether a character is white space, by the Unicode `White_Space` property.
pub fn char_is_white_space(c: char) -> (b: bool)
    ensures
        b == is_white_space(c),
{
    let u = c as u32;
    (0x09 <= u && u <= 0x0D) || u == 0x20 || u == 0x85 || u == 0xA0 || u == 0x1680 || (0x2000 <= u
        && u <= 0x200A) || u == 0x2028 || u == 0x2029 || u == 0x202F || u == 0x205F || u == 0x3000
}

/// The characters of a string, ASCII letters folded to lower case.
fn lowered_chars(s: &str) -> (v: Vec<char>)
    ensures
        v@ == s@.map_values(|c: char| ascii_lower(c)),
{
    let n = s.unicode_len();
    let mut v: Vec<char> = Vec::new();
    let mut i: usize = 0;
    while i < n
        invariant
            n == s@.len(),
            i <= n,
            v@ == s@.subrange(0, i as int).map_values(|c: char| ascii_lower(c)),
        decreases n - i,
    {
        let c = s.get_char(i);
        let lower = if 'A' <= c && c <= 'Z' {
            ((c as u32) + 32) as u8 as char
        } else {
            c
        };
        proof {
            if 'A' <= c && c <= 'Z' {
                assert(((c as u32) + 32) as u8 as char == ((c as u32) + 32) as char);
            }
        }
        v.push(lower);
        i = i + 1;
        proof {
            assert(v@ =~= s@.subrange(0, i as int).map_values(|c: char| ascii_lower(c)));
        }
    }
    proof {
        assert(s@.subrange(0, n as int) =~= s@);
    }
    v
}

/// The bounds of a character sequence with white space trimmed from both ends.
fn trimmed_bounds(v: &Vec<char>) -> (r: (usize, usize))
    ensures
        r.0 <= r.1 <= v@.len(),
        v@.subrange(r.0 as int, r.1 as int) == trim_back(trim_front(v@)),
{
    let n = v.len();
    let mut lo: usize = 0;
    proof {
        assert(v@.subrange(0, n as int) =~= v@);
    }
    while lo < n && char_is_white_space(v[lo])
        invariant
            n == v@.len(),
            lo <= n,
            trim_front(v@) == trim_front(v@.subrange(lo as int, n as int)),
        decreases n - lo,
    {
        proof {
            let s = v@.subrange(lo as int, n as int);
            assert(s.drop_first() =~= v@.subrange(lo + 1, n as int));
        }
        lo = lo + 1;
    }
    proof {
        let s = v@.subrange(lo as int, n as int);
        assert(trim_front(s) == s);
    }
    let mut hi: usize = n;
    while hi > lo && char_is_white_space(v[hi - 1])
        invariant
            n == v@.len(),
            lo <= hi <= n,
            trim_front(v@) == v@.subrange(lo as int, n as int),
            trim_back(v@.subrange(lo as int, n as int)) == trim_back(
                v@.subrange(lo as int, hi as int),
            ),
        decreases hi - lo,
    {
        proof {
            let s = v@.subrange(lo as int, hi as int);
            assert(s.drop_last() =~= v@.subrange(lo as int, hi - 1));
        }
        hi = hi - 1;
    }
    proof {
        let s = v@.subrange(lo as int, hi as int);
        assert(trim_back(s) == s);
    }
    (lo, hi)
}

/// Whether `v[lo..hi]` spells exactly `lit`.
fn range_is(v: &Vec<char>, lo: usize, hi: usize, lit: &str) -> (b: bool)
    requires
        lo <= hi <= v@.len(),
    ensures
        b == (v@.subrange(lo as int, hi as int) == lit@),
{
    let n = lit.unicode_len();
    if hi - lo != n {
        return false;
    }
    let mut i: usize = 0;
    while i < n
        invariant
            n == lit@.len(),
            hi - lo == n,
            lo <= hi <= v@.len(),
            i <= n,
            forall|k: int| 0 <= k < i ==> v@[lo + k] == lit@[k],
        decreases n - i,
    {
        if v[lo + i] != lit.get_char(i) {
            proof {
                assert(v@.subrange(lo as int, hi as int)[i as int] != lit@[i as int]);
            }
            return false;
        }
        i = i + 1;
    }
    proof {
        assert(v@.subrange(lo as int, hi as int) =~= lit@);
    }
    true
}

/// Four bytes at `i`.
pub open spec fn bytes_at(s: Seq<u8>, i: int, a: u8, b: u8, c: u8, d: u8) -> bool {
    0 <= i && i + 4 <= s.len() && s[i] == a && s[i + 1] == b && s[i + 2] == c && s[i + 3] == d
}

/// Whether `needle` appears in `haystack` as a run of consecutive bytes. An
/// empty needle is never found.
pub open spec fn spec_contains(haystack: Seq<u8>, needle: Seq<u8>) -> bool {
    needle.len() > 0 && exists|i: int|
        0 <= i && i + needle.len() <= haystack.len() && #[trigger] haystack.subrange(
            i,
            i + needle.len(),
        ) == needle
}

/// The container an ISOBMFF brand names.
pub open spec fn brand_container(s: Seq<u8>) -> Container {
    if bytes_at(s, 8, 0x61, 0x76, 0x69, 0x66) || bytes_at(s, 8, 0x61, 0x76, 0x69, 0x73) {
        // avif, avis
        Container::Avif
    } else if bytes_at(s, 8, 0x68, 0x65, 0x69, 0x63) || bytes_at(s, 8, 0x68, 0x65, 0x69, 0x78)
        || bytes_at(s, 8, 0x68, 0x65, 0x69, 0x6D) || bytes_at(s, 8, 0x68, 0x65, 0x69, 0x73)
        || bytes_at(s, 8, 0x68, 0x65, 0x76, 0x63) || bytes_at(s, 8, 0x6D, 0x69, 0x66, 0x31)
        || bytes_at(s, 8, 0x6D, 0x73, 0x66, 0x31) {
        // heic, heix, heim, heis, hevc, mif1, msf1
        Container::Heif
    } else {
        Container::Mp4
    }
}

/// The bytes Matroska's WebM DocType is spelt with.
pub open spec fn webm_tag() -> Seq<u8> {
    seq![0x77u8, 0x65, 0x62, 0x6D]
}

/// What container a byte prefix is, signature by signature.
pub open spec fn spec_identify(s: Seq<u8>) -> Option<Container> {
    if s.len() >= 12 && bytes_at(s, 4, 0x66, 0x74, 0x79, 0x70) {
        // "ftyp": the brand decides between film and still.
        Some(brand_container(s))
    } else if bytes_at(s, 0, 0x1A, 0x45, 0xDF, 0xA3) {
        // EBML: the DocType decides.
        let header = if s.len() < PROBE_BYTES {
            s
        } else {
            s.subrange(0, PROBE_BYTES as int)
        };
        Some(
            if spec_contains(header, webm_tag()) {
                Container::WebM
            } else {
                Container::Matroska
            },
        )
    } else if s.len() >= 12 && bytes_at(s, 0, 0x52, 0x49, 0x46, 0x46) {
        // RIFF: the form type decides, and an unknown one is nothing of ours.
        if bytes_at(s, 8, 0x41, 0x56, 0x49, 0x20) {
            Some(Container::Avi)
        } else if bytes_at(s, 8, 0x57, 0x45, 0x42, 0x50) {
            Some(Container::WebP)
        } else {
            None
        }
    } else if bytes_at(s, 0, 0x4F, 0x67, 0x67, 0x53) {
        Some(Container::Ogg)
    } else if bytes_at(s, 0, 0x89, 0x50, 0x4E, 0x47) && bytes_at(s, 4, 0x0D, 0x0A, 0x1A, 0x0A) {
        Some(Container::Png)
    } else if s.len() >= 3 && s[0] == 0xFF && s[1] == 0xD8 && s[2] == 0xFF {
        Some(Container::Jpeg)
    } else if s.len() >= 6 && bytes_at(s, 0, 0x47, 0x49, 0x46, 0x38) && (s[4] == 0x37 || s[4]
        == 0x39) && s[5] == 0x61 {
        // GIF87a, GIF89a
        Some(Container::Gif)
    } else if s.len() >= 2 && s[0] == 0x42 && s[1] == 0x4D {
        Some(Container::Bmp)
    } else if bytes_at(s, 0, 0x49, 0x49, 0x2A, 0x00) || bytes_at(s, 0, 0x4D, 0x4D, 0x00, 0x2A) {
        Some(Container::Tiff)
    } else {
        None
    }
}

/// Whether `s[i..i + 4]` is `a b c d`.
fn at4(s: &[u8], i: usize, a: u8, b: u8, c: u8, d: u8) -> (r: bool)
    ensures
        r == bytes_at(s@, i as int, a, b, c, d),
{
    if i > s.len() || s.len() - i < 4 {
        return false;
    }
    s[i] == a && s[i + 1] == b && s[i + 2] == c && s[i + 3] == d
}

/// Whether `needle` occurs in `haystack` as a run of consecutive bytes.
///
/// `slice::contains` is for single elements; this is the subsequence version.
pub fn contains(haystack: &[u8], needle: &[u8]) -> (r: bool)
    ensures
        r == spec_contains(haystack@, needle@),
{
    let n = haystack.len();
    let m = needle.len();
    if m == 0 || n < m {
        proof {
            if m > 0 {
                assert forall|i: int| 0 <= i && i + m <= n implies #[trigger] haystack@.subrange(
                    i,
                    i + m,
                ) != needle@ by {}
            }
        }
        return false;
    }
    let mut i: usize = 0;
    while i <= n - m
        invariant
            n == haystack@.len(),
            m == needle@.len(),
            0 < m <= n,
            i <= n - m + 1,
            forall|k: int| 0 <= k < i ==> #[trigger] haystack@.subrange(k, k + m) != needle@,
        decreases n - i,
    {
        let mut j: usize = 0;
        let mut same = true;
        while j < m
            invariant
                n == haystack@.len(),
                m == needle@.len(),
                i + m <= n,
                j <= m,
                same == (forall|k: int| 0 <= k < j ==> haystack@[i + k] == needle@[k]),
            decreases m - j,
        {
            if haystack[i + j] != needle[j] {
                same = false;
            }
            j = j + 1;
        }
        if same {
            proof {
                assert(haystack@.subrange(i as int, i + m) =~= needle@);
            }
            return true;
        }
        proof {
            assert(haystack@.subrange(i as int, i + m) != needle@) by {
                let k = choose|k: int| 0 <= k < m && haystack@[i + k] != needle@[k];
                assert(haystack@.subrange(i as int, i + m)[k] != needle@[k]);
            }
        }
        i = i + 1;
    }
    false
}

/// What container these bytes are, if any.
///
/// Wants [`PROBE_BYTES`] to be sure about Matroska; shorter input still
/// identifies everything whose signature fits in what was given.
pub fn identify_bytes(bytes: &[u8]) -> (r: Option<Container>)
    ensures
        r == spec_identify(bytes@),
{
    let n = bytes.len();
    if n >= 12 && at4(bytes, 4, 0x66, 0x74, 0x79, 0x70) {
        if at4(bytes, 8, 0x61, 0x76, 0x69, 0x66) || at4(bytes, 8, 0x61, 0x76, 0x69, 0x73) {
            return Some(Container::Avif);
        }
        if at4(bytes, 8, 0x68, 0x65, 0x69, 0x63) || at4(bytes, 8, 0x68, 0x65, 0x69, 0x78) || at4(
            bytes,
            8,
            0x68,
            0x65,
            0x69,
            0x6D,
        ) || at4(bytes, 8, 0x68, 0x65, 0x69, 0x73) || at4(bytes, 8, 0x68, 0x65, 0x76, 0x63)
            || at4(bytes, 8, 0x6D, 0x69, 0x66, 0x31) || at4(bytes, 8, 0x6D, 0x73, 0x66, 0x31) {
            return Some(Container::Heif);
        }
        return Some(Container::Mp4);
    }
    if at4(bytes, 0, 0x1A, 0x45, 0xDF, 0xA3) {
        let header = if n < PROBE_BYTES {
            bytes
        } else {
            vstd::slice::slice_subrange(bytes, 0, PROBE_BYTES)
        };
        let tag: [u8; 4] = [0x77, 0x65, 0x62, 0x6D];
        let tag_slice = tag.as_slice();
        proof {
            assert(tag_slice@ =~= webm_tag());
            if n < PROBE_BYTES {
                assert(header@ =~= bytes@);
            }
        }
        return Some(
            if contains(header, tag_slice) {
                Container::WebM
            } else {
                Container::Matroska
            },
        );
    }
    if n >= 12 && at4(bytes, 0, 0x52, 0x49, 0x46, 0x46) {
        if at4(bytes, 8, 0x41, 0x56, 0x49, 0x20) {
            return Some(Container::Avi);
        }
        if at4(bytes, 8, 0x57, 0x45, 0x42, 0x50) {
            return Some(Container::WebP);
        }
        return None;
    }
    if at4(bytes, 0, 0x4F, 0x67, 0x67, 0x53) {
        return Some(Container::Ogg);
    }
    if at4(bytes, 0, 0x89, 0x50, 0x4E, 0x47) && at4(bytes, 4, 0x0D, 0x0A, 0x1A, 0x0A) {
        return Some(Container::Png);
    }
    if n >= 3 && bytes[0] == 0xFF && bytes[1] == 0xD8 && bytes[2] == 0xFF {
        return Some(Container::Jpeg);
    }
    if n >= 6 && at4(bytes, 0, 0x47, 0x49, 0x46, 0x38) && (bytes[4] == 0x37 || bytes[4] == 0x39)
        && bytes[5] == 0x61 {
        return Some(Container::Gif);
    }
    if n >= 2 && bytes[0] == 0x42 && bytes[1] == 0x4D {
        return Some(Container::Bmp);
    }
    if at4(bytes, 0, 0x49, 0x49, 0x2A, 0x00) || at4(bytes, 0, 0x4D, 0x4D, 0x00, 0x2A) {
        return Some(Container::Tiff);
    }
    None
}

/// The first up to eight bytes in hex, space-separated.
pub open spec fn hex_head(bytes: Seq<u8>, count: nat) -> Seq<char>
    decreases count,
{
    if count == 0 {
        Seq::empty()
    } else if count == 1 {
        hex_byte(bytes[0])
    } else {
        hex_head(bytes, (count - 1) as nat) + " "@ + hex_byte(bytes[count - 1])
    }
}

/// What an unidentified file is described as.
pub open spec fn spec_describe_unknown(bytes: Seq<u8>) -> Seq<char> {
    if bytes.len() == 0 {
        "empty file"@
    } else {
        "starts "@ + hex_head(bytes, if bytes.len() < 8 { bytes.len() } else { 8 })
    }
}

/// The first few bytes in hex, so an unrecognised file says something useful
/// rather than only that it was unrecognised.
pub fn describe_unknown(bytes: &[u8]) -> (s: String)
    ensures
        s@ == spec_describe_unknown(bytes@),
{
    if bytes.len() == 0 {
        return String::from_str("empty file");
    }
    let count = if bytes.len() < 8 {
        bytes.len()
    } else {
        8
    };
    let mut s = String::from_str("starts ");
    push_hex_byte(&mut s, bytes[0]);
    let mut i: usize = 1;
    while i < count
        invariant
            1 <= i <= count <= bytes@.len(),
            count <= 8,
            s@ == "starts "@ + hex_head(bytes@, i as nat),
        decreases count - i,
    {
        s.append(" ");
        push_hex_byte(&mut s, bytes[i]);
        i = i + 1;
        proof {
            assert(s@ =~= "starts "@ + hex_head(bytes@, i as nat));
        }
    }
    s
}

/// A codec string that is already lower case and has no white space at either
/// end is its own normal form.
proof fn lemma_normal_already(id: Seq<char>)
    requires
        id.len() > 0,
        forall|i: int| 0 <= i < id.len() ==> !('A' <= #[trigger] id[i] && id[i] <= 'Z'),
        !is_white_space(id[0]),
        !is_white_space(id.last()),
    ensures
        normalized_codec_id(id) == id,
{
    let lowered = id.map_values(|c: char| ascii_lower(c));
    assert(lowered =~= id);
    assert(trim_front(id) == id);
    assert(trim_back(id) == id);
}

/// Each encoding's MP4 code is four characters and names that encoding when
/// read back as a codec string — all but a still image, whose code names
/// nothing.
pub proof fn lemma_fourcc_names_its_encoding(e: Encoding)
    ensures
        e != Encoding::Still ==> spec_fourcc(e).len() == 4 && encoding_named(
            normalized_codec_id(spec_fourcc(e)),
        ) == Some(e),
        e == Encoding::Still ==> encoding_named(normalized_codec_id(spec_fourcc(e))) is None,
{
    reveal_strlit("avc1");
    reveal_strlit("avc3");
    reveal_strlit("h264");
    reveal_strlit("v_mpeg4/iso/avc");
    reveal_strlit("hvc1");
    reveal_strlit("hev1");
    reveal_strlit("h265");
    reveal_strlit("hevc");
    reveal_strlit("v_mpegh/iso/hevc");
    reveal_strlit("av01");
    reveal_strlit("av1");
    reveal_strlit("v_av1");
    reveal_strlit("vp09");
    reveal_strlit("vp9");
    reveal_strlit("v_vp9");
    reveal_strlit("vp08");
    reveal_strlit("vp8");
    reveal_strlit("v_vp8");
    reveal_strlit("theo");
    reveal_strlit("v_theora");
    reveal_strlit("mp4v");
    reveal_strlit("v_mpeg4/iso/asp");
    reveal_strlit("mjpg");
    reveal_strlit("mjpeg");
    reveal_strlit("v_mjpeg");
    reveal_strlit("apc");
    reveal_strlit("ap4h");
    reveal_strlit("apcn");
    reveal_strlit("still");
    let code = spec_fourcc(e);
    assert forall|i: int| 0 <= i < code.len() implies !('A' <= #[trigger] code[i] && code[i] <= 'Z') by {}
    lemma_normal_already(code);
    let t = normalized_codec_id(code);
    assert(t == code);
    // Codes are told apart by their first characters.
    assert(t.len() >= 3 ==> t.subrange(0, 3)[0] == t[0]);
    assert(t[0] != 'a' ==> t.subrange(0, 3) != "apc"@);
    assert(t[0] == 'a' && t[1] != 'p' ==> t.subrange(0, 3) != "apc"@) by {
        if t[0] == 'a' && t[1] != 'p' {
            assert(t.subrange(0, 3)[1] == t[1]);
        }
    }
    match e {
        Encoding::ProRes => {
            assert(t.subrange(0, 3) =~= "apc"@);
        },
        Encoding::H264 => assert(encoding_named(t) == Some(e)),
        Encoding::H265 => assert(encoding_named(t) == Some(e)),
        Encoding::Av1 => {
            assert(t != "avc1"@ && t != "avc3"@) by {
                assert(t[2] != "avc1"@[2] && t[2] != "avc3"@[2]);
            }
            assert(encoding_named(t) == Some(e));
        },
        Encoding::Vp9 => assert(encoding_named(t) == Some(e)),
        Encoding::Vp8 => assert(encoding_named(t) == Some(e)),
        Encoding::Theora => assert(encoding_named(t) == Some(e)),
        Encoding::Mpeg4Part2 => assert(encoding_named(t) == Some(e)),
        Encoding::MotionJpeg => assert(encoding_named(t) == Some(e)),
        Encoding::Still => assert(encoding_named(t) is None),
    }
}

/// Everything vtome can be asked to write is royalty-free: the patent-pooled
/// encodings are read, never produced.
pub proof fn lemma_encodable_is_royalty_free(e: Encoding)
    ensures
        spec_is_encodable(e) ==> spec_is_royalty_free(e),
        (e is H264 || e is H265) ==> !spec_is_encodable(e) && !spec_is_royalty_free(e),
{
}

/// No container goes down both paths: a still image is never demuxed, and what
/// is demuxed is never a still image.
pub proof fn lemma_images_are_not_demuxed(c: Container)
    ensures
        !(spec_is_image(c) && spec_is_demuxable(c)),
{
}

/// More bytes never change what twelve or more already identified — the
/// signatures all sit in the first twelve — except that a Matroska file may
/// turn out to be WebM once its DocType comes into view.
pub proof fn lemma_more_bytes_keep_the_answer(s: Seq<u8>, t: Seq<u8>)
    requires
        s.len() >= 12,
    ensures
        spec_identify(s) != Some(Container::Matroska) ==> spec_identify(s + t) == spec_identify(s),
        spec_identify(s) == Some(Container::Matroska) ==> (spec_identify(s + t) == Some(
            Container::Matroska,
        ) || spec_identify(s + t) == Some(Container::WebM)),
{
    let st = s + t;
    assert forall|i: int| 0 <= i < 12 implies #[trigger] st[i] == s[i] by {}
    if bytes_at(s, 0, 0x1A, 0x45, 0xDF, 0xA3) && !(bytes_at(s, 4, 0x66, 0x74, 0x79, 0x70)) {
        let hs = if s.len() < PROBE_BYTES {
            s
        } else {
            s.subrange(0, PROBE_BYTES as int)
        };
        let ht = if st.len() < PROBE_BYTES {
            st
        } else {
            st.subrange(0, PROBE_BYTES as int)
        };
        assert(hs.len() <= ht.len());
        assert forall|i: int| 0 <= i < hs.len() implies #[trigger] ht[i] == hs[i] by {}
        if spec_contains(hs, webm_tag()) {
            let i = choose|i: int|
                0 <= i && i + webm_tag().len() <= hs.len() && #[trigger] hs.subrange(
                    i,
                    i + webm_tag().len(),
                ) == webm_tag();
            assert(ht.subrange(i, i + 4) =~= hs.subrange(i, i + 4));
        }
    }
}

/// Whether four bytes at `i` spell `word`.
pub open spec fn spells(s: Seq<u8>, i: int, word: Seq<char>) -> bool {
    &&& word.len() == 4
    &&& 0 <= i && i + 4 <= s.len()
    &&& s[i] as u32 == word[0] as u32
    &&& s[i + 1] as u32 == word[1] as u32
    &&& s[i + 2] as u32 == word[2] as u32
    &&& s[i + 3] as u32 == word[3] as u32
}

/// An ISOBMFF file is told apart by its major brand: `avif` and `avis` (a
/// still AV1 picture and an AV1 image sequence) are AVIF; `heic`, `heix`,
/// `heim`, `heis`, `hevc`, `mif1` and `msf1` are HEIF; any other brand is a
/// film. This holds for every prefix long enough to hold the brand.
pub proof fn lemma_isobmff_brands(s: Seq<u8>)
    requires
        s.len() >= 12,
        spells(s, 4, "ftyp"@),
    ensures
        spells(s, 8, "avif"@) || spells(s, 8, "avis"@) ==> spec_identify(s) == Some(Container::Avif),
        spells(s, 8, "heic"@) || spells(s, 8, "heix"@) || spells(s, 8, "heim"@) || spells(s, 8, "heis"@)
            || spells(s, 8, "hevc"@) || spells(s, 8, "mif1"@) || spells(s, 8, "msf1"@)
            ==> spec_identify(s) == Some(Container::Heif),
        spec_identify(s) is Some,
        spec_identify(s) == Some(Container::Avif) ==> spells(s, 8, "avif"@) || spells(s, 8, "avis"@),
        spec_identify(s) == Some(Container::Heif) || spec_identify(s) == Some(Container::Avif)
            || spec_identify(s) == Some(Container::Mp4),
{
    reveal_strlit("ftyp");
    reveal_strlit("avif");
    reveal_strlit("avis");
    reveal_strlit("heic");
    reveal_strlit("heix");
    reveal_strlit("heim");
    reveal_strlit("heis");
    reveal_strlit("hevc");
    reveal_strlit("mif1");
    reveal_strlit("msf1");
    assert(bytes_at(s, 4, 0x66, 0x74, 0x79, 0x70));
    assert(spells(s, 8, "heic"@) ==> s[8] == 0x68 && s[9] == 0x65 && s[10] == 0x69 && s[11] == 0x63);
    assert(spells(s, 8, "heix"@) ==> s[8] == 0x68 && s[9] == 0x65 && s[10] == 0x69 && s[11] == 0x78);
    assert(spells(s, 8, "heim"@) ==> s[8] == 0x68 && s[9] == 0x65 && s[10] == 0x69 && s[11] == 0x6D);
    assert(spells(s, 8, "heis"@) ==> s[8] == 0x68 && s[9] == 0x65 && s[10] == 0x69 && s[11] == 0x73);
    assert(spells(s, 8, "hevc"@) ==> s[8] == 0x68 && s[9] == 0x65 && s[10] == 0x76 && s[11] == 0x63);
    assert(spells(s, 8, "mif1"@) ==> s[8] == 0x6D && s[9] == 0x69 && s[10] == 0x66 && s[11] == 0x31);
    assert(spells(s, 8, "msf1"@) ==> s[8] == 0x6D && s[9] == 0x73 && s[10] == 0x66 && s[11] == 0x31);
}

/// Every other container is known by the signature it starts with, however
/// little follows: `OggS`; PNG's eight bytes; JPEG's start-of-image marker
/// and the marker after it; `GIF87a` or `GIF89a`; `BM`; TIFF's byte-order mark
/// in either order; RIFF with `AVI ` or `WEBP` as its form (and nothing with
/// another form); and EBML, which is Matroska or WebM. Only an ISOBMFF `ftyp`
/// at the fourth byte, which is looked for first, can overrule them.
pub proof fn lemma_signatures_identify(s: Seq<u8>)
    requires
        !(s.len() >= 12 && spells(s, 4, "ftyp"@)),
    ensures
        spells(s, 0, "OggS"@) ==> spec_identify(s) == Some(Container::Ogg),
        s.len() >= 8 && s[0] == 0x89 && spells(s, 1, "PNG\r"@) && s[5] == 0x0A && s[6] == 0x1A && s[7]
            == 0x0A ==> spec_identify(s) == Some(Container::Png),
        s.len() >= 3 && s[0] == 0xFF && s[1] == 0xD8 && s[2] == 0xFF ==> spec_identify(s) == Some(
            Container::Jpeg,
        ),
        s.len() >= 6 && spells(s, 0, "GIF8"@) && (s[4] == 0x37 || s[4] == 0x39) && s[5] == 0x61
            ==> spec_identify(s) == Some(Container::Gif),
        s.len() >= 2 && s[0] == 0x42 && s[1] == 0x4D ==> spec_identify(s) == Some(Container::Bmp),
        s.len() >= 4 && ((s[0] == 0x49 && s[1] == 0x49 && s[2] == 0x2A && s[3] == 0x00) || (s[0]
            == 0x4D && s[1] == 0x4D && s[2] == 0x00 && s[3] == 0x2A)) ==> spec_identify(s) == Some(
            Container::Tiff,
        ),
        s.len() >= 12 && spells(s, 0, "RIFF"@) ==> spec_identify(s) == (if spells(s, 8, "AVI "@) {
            Some(Container::Avi)
        } else if spells(s, 8, "WEBP"@) {
            Some(Container::WebP)
        } else {
            None
        }),
        s.len() >= 4 && s[0] == 0x1A && s[1] == 0x45 && s[2] == 0xDF && s[3] == 0xA3 ==> (spec_identify(
            s,
        ) == Some(Container::Matroska) || spec_identify(s) == Some(Container::WebM)),
        s.len() == 0 ==> spec_identify(s) is None,
{
    reveal_strlit("ftyp");
    reveal_strlit("OggS");
    reveal_strlit("PNG\r");
    reveal_strlit("GIF8");
    reveal_strlit("RIFF");
    reveal_strlit("AVI ");
    reveal_strlit("WEBP");
    assert(s.len() >= 12 ==> !bytes_at(s, 4, 0x66, 0x74, 0x79, 0x70));
}

/// How each encoding appears as a Matroska codec ID, where it has one.
pub open spec fn matroska_codec_id(e: Encoding) -> Option<Seq<char>> {
    match e {
        Encoding::H264 => Some("V_MPEG4/ISO/AVC"@),
        Encoding::H265 => Some("V_MPEGH/ISO/HEVC"@),
        Encoding::Av1 => Some("V_AV1"@),
        Encoding::Vp9 => Some("V_VP9"@),
        Encoding::Vp8 => Some("V_VP8"@),
        Encoding::Theora => Some("V_THEORA"@),
        Encoding::Mpeg4Part2 => Some("V_MPEG4/ISO/ASP"@),
        Encoding::MotionJpeg => Some("V_MJPEG"@),
        Encoding::ProRes | Encoding::Still => None,
    }
}

/// A codec string whose ASCII letters fold to `folded`, and which has no
/// white space at either end, is read as `folded`.
proof fn lemma_folds_to(id: Seq<char>, folded: Seq<char>)
    requires
        id.len() == folded.len(),
        folded.len() > 0,
        forall|i: int| 0 <= i < id.len() ==> #[trigger] ascii_lower(id[i]) == folded[i],
        !is_white_space(folded[0]),
        !is_white_space(folded.last()),
    ensures
        normalized_codec_id(id) == folded,
{
    let lowered = id.map_values(|c: char| ascii_lower(c));
    assert(lowered =~= folded);
    assert(trim_front(folded) == folded);
    assert(trim_back(folded) == folded);
}

/// Each Matroska codec ID, read as a codec string, names its own encoding, as
/// the MP4 codes do: a Matroska track's encoding is known from its ID.
pub proof fn lemma_matroska_ids_name_their_encoding(e: Encoding)
    ensures
        matroska_codec_id(e) matches Some(id) ==> encoding_named(normalized_codec_id(id)) == Some(e),
{
    reveal_strlit("v_mpeg4/iso/avc");
    reveal_strlit("v_mpegh/iso/hevc");
    reveal_strlit("v_av1");
    reveal_strlit("v_vp9");
    reveal_strlit("v_vp8");
    reveal_strlit("v_theora");
    reveal_strlit("v_mpeg4/iso/asp");
    reveal_strlit("v_mjpeg");
    reveal_strlit("V_MPEG4/ISO/AVC");
    reveal_strlit("V_MPEGH/ISO/HEVC");
    reveal_strlit("V_AV1");
    reveal_strlit("V_VP9");
    reveal_strlit("V_VP8");
    reveal_strlit("V_THEORA");
    reveal_strlit("V_MPEG4/ISO/ASP");
    reveal_strlit("V_MJPEG");
    reveal_strlit("avc1");
    reveal_strlit("avc3");
    reveal_strlit("h264");
    reveal_strlit("hvc1");
    reveal_strlit("hev1");
    reveal_strlit("h265");
    reveal_strlit("hevc");
    reveal_strlit("av01");
    reveal_strlit("av1");
    reveal_strlit("vp09");
    reveal_strlit("vp9");
    reveal_strlit("vp08");
    reveal_strlit("vp8");
    reveal_strlit("theo");
    reveal_strlit("mp4v");
    reveal_strlit("mjpg");
    reveal_strlit("mjpeg");
    reveal_strlit("apc");
    reveal_strlit("ap4h");
    match matroska_codec_id(e) {
        Some(id) => {
            let folded = id.map_values(|c: char| ascii_lower(c));
            assert forall|i: int| 0 <= i < id.len() implies #[trigger] ascii_lower(id[i]) == folded[i] by {}
            match e {
                Encoding::H264 => assert(folded =~= "v_mpeg4/iso/avc"@),
                Encoding::H265 => assert(folded =~= "v_mpegh/iso/hevc"@),
                Encoding::Av1 => assert(folded =~= "v_av1"@),
                Encoding::Vp9 => assert(folded =~= "v_vp9"@),
                Encoding::Vp8 => assert(folded =~= "v_vp8"@),
                Encoding::Theora => assert(folded =~= "v_theora"@),
                Encoding::Mpeg4Part2 => assert(folded =~= "v_mpeg4/iso/asp"@),
                Encoding::MotionJpeg => assert(folded =~= "v_mjpeg"@),
                _ => {},
            }
            lemma_folds_to(id, folded);
        },
        None => {},
    }
}

/// An encoding is royalty-free exactly when it is not one of the patent-pooled
/// or licensed ones — H.264, HEVC, ProRes, MPEG-4 Part 2, Motion JPEG — and a
/// still image, Theora and every VP and AV1 generation are.
pub proof fn lemma_royalty_free_is_the_open_ones(e: Encoding)
    ensures
        spec_is_royalty_free(e) <==> !(e == Encoding::H264 || e == Encoding::H265 || e
            == Encoding::ProRes || e == Encoding::Mpeg4Part2 || e == Encoding::MotionJpeg),
        spec_is_royalty_free(Encoding::Av1) && spec_is_royalty_free(Encoding::Vp9)
            && spec_is_royalty_free(Encoding::Vp8) && spec_is_royalty_free(Encoding::Theora)
            && spec_is_royalty_free(Encoding::Still),
{
}

} // verus!
