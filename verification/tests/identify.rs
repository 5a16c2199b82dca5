use vtome::identify::{contains, describe_unknown, identify_bytes, Container, Encoding, PROBE_BYTES};

fn ftyp(brand: &[u8; 4]) -> Vec<u8> {
    let mut bytes = vec![0, 0, 0, 0x20];
    bytes.extend_from_slice(b"ftyp");
    bytes.extend_from_slice(brand);
    bytes.extend_from_slice(&[0; 16]);
    bytes
}

#[test]
fn isobmff_is_split_by_its_brand() {
    assert_eq!(identify_bytes(&ftyp(b"isom")), Some(Container::Mp4));
    assert_eq!(identify_bytes(&ftyp(b"mp42")), Some(Container::Mp4));
    assert_eq!(identify_bytes(&ftyp(b"qt  ")), Some(Container::Mp4));
    assert_eq!(identify_bytes(&ftyp(b"avif")), Some(Container::Avif));
    assert_eq!(identify_bytes(&ftyp(b"heic")), Some(Container::Heif));
}

/// The DocType is what separates the two, and it is not at a fixed offset.
#[test]
fn matroska_and_webm_are_told_apart_by_doctype() {
    let mut mkv = vec![0x1A, 0x45, 0xDF, 0xA3];
    mkv.extend_from_slice(&[0x01; 20]);
    mkv.extend_from_slice(b"matroska");

    let mut webm = vec![0x1A, 0x45, 0xDF, 0xA3];
    webm.extend_from_slice(&[0x01; 20]);
    webm.extend_from_slice(b"webm");

    assert_eq!(identify_bytes(&mkv), Some(Container::Matroska));
    assert_eq!(identify_bytes(&webm), Some(Container::WebM));
}

/// RIFF is a family, not a format: the same first four bytes are an AVI, a
/// WebP, or a WAV, and only the form type says which.
#[test]
fn riff_needs_its_form_type() {
    let mut avi = b"RIFF".to_vec();
    avi.extend_from_slice(&[0; 4]);
    avi.extend_from_slice(b"AVI ");

    let mut webp = b"RIFF".to_vec();
    webp.extend_from_slice(&[0; 4]);
    webp.extend_from_slice(b"WEBP");

    let mut wav = b"RIFF".to_vec();
    wav.extend_from_slice(&[0; 4]);
    wav.extend_from_slice(b"WAVE");

    assert_eq!(identify_bytes(&avi), Some(Container::Avi));
    assert_eq!(identify_bytes(&webp), Some(Container::WebP));
    assert_eq!(identify_bytes(&wav), None, "audio is not vtome's business");
}

#[test]
fn the_still_formats_identify() {
    let cases: &[(&[u8], Container)] = &[
        (
            &[0x89, b'P', b'N', b'G', 0x0D, 0x0A, 0x1A, 0x0A],
            Container::Png,
        ),
        (&[0xFF, 0xD8, 0xFF, 0xE0], Container::Jpeg),
        (b"GIF89a  ", Container::Gif),
        (b"BM   ", Container::Bmp),
        (&[0x49, 0x49, 0x2A, 0x00], Container::Tiff),
        (&[0x4D, 0x4D, 0x00, 0x2A], Container::Tiff),
    ];

    for (bytes, expected) in cases {
        assert_eq!(identify_bytes(bytes), Some(*expected), "{}", expected.name());
        assert!(expected.is_image(), "{} should be an image", expected.name());
    }
}

#[test]
fn a_whole_signature_identifies_however_short() {
    assert_eq!(identify_bytes(&[0xFF, 0xD8, 0xFF]), Some(Container::Jpeg));
    assert_eq!(identify_bytes(b"BM"), Some(Container::Bmp));
    assert_eq!(identify_bytes(b"OggS"), Some(Container::Ogg));
    assert_eq!(identify_bytes(&[0xFF, 0xD8]), None);
    assert_eq!(identify_bytes(b"B"), None);
}

#[test]
fn nothing_recognises_nothing() {
    assert_eq!(identify_bytes(b""), None);
    assert_eq!(identify_bytes(b"not a media file at all"), None);
}

#[test]
fn codec_ids_map_from_both_worlds() {
    assert_eq!(Encoding::from_codec_id("avc1"), Some(Encoding::H264));
    assert_eq!(
        Encoding::from_codec_id("V_MPEG4/ISO/AVC"),
        Some(Encoding::H264)
    );
    assert_eq!(Encoding::from_codec_id("hev1"), Some(Encoding::H265));
    assert_eq!(Encoding::from_codec_id("V_AV1"), Some(Encoding::Av1));
    assert_eq!(Encoding::from_codec_id("vp09"), Some(Encoding::Vp9));
    assert_eq!(Encoding::from_codec_id("nonsense"), None);
}

/// The crate's reason for existing, as an assertion rather than a comment.
#[test]
fn only_royalty_free_encodings_are_encodable() {
    for encoding in [Encoding::H264, Encoding::H265, Encoding::ProRes] {
        assert!(!encoding.is_royalty_free(), "{}", encoding.name());
        assert!(!encoding.is_encodable(), "{} must never be written", encoding.name());
    }

    for encoding in [Encoding::Av1, Encoding::Vp9] {
        assert!(
            encoding.is_royalty_free() && encoding.is_encodable(),
            "{}",
            encoding.name()
        );
    }
}

#[test]
fn codec_ids_are_trimmed_and_folded() {
    assert_eq!(Encoding::from_codec_id("  AVC1\t"), Some(Encoding::H264));
    assert_eq!(Encoding::from_codec_id("apch"), Some(Encoding::ProRes));
    assert_eq!(Encoding::from_codec_id("AP4H"), Some(Encoding::ProRes));
    assert_eq!(Encoding::from_codec_id("ap"), None);
    assert_eq!(Encoding::from_codec_id("V_THEORA"), Some(Encoding::Theora));
    assert_eq!(Encoding::from_codec_id("mjpeg"), Some(Encoding::MotionJpeg));
    assert_eq!(Encoding::from_codec_id(""), None);
}

#[test]
fn an_unidentifiable_header_says_what_it_starts_with() {
    let found = describe_unknown(b"\x01\x02\x03\x04nothing");
    assert!(found.contains("01 02 03 04"), "{found}");
    assert_eq!(found, "starts 01 02 03 04 6e 6f 74 68");
    assert_eq!(describe_unknown(&[]), "empty file");
    assert_eq!(describe_unknown(&[0xAB]), "starts ab");
}

#[test]
fn the_webm_tag_past_the_probe_does_not_count() {
    let mut late = vec![0x1A, 0x45, 0xDF, 0xA3];
    late.resize(PROBE_BYTES, 0x01);
    late.extend_from_slice(b"webm");
    assert_eq!(identify_bytes(&late), Some(Container::Matroska));

    late.truncate(PROBE_BYTES - 4);
    late.extend_from_slice(b"webm");
    assert_eq!(identify_bytes(&late), Some(Container::WebM));
}

#[test]
fn subsequences_are_found_only_whole() {
    assert!(contains(b"xxwebmxx", b"webm"));
    assert!(!contains(b"xxwebxmx", b"webm"));
    assert!(!contains(b"web", b"webm"));
    assert!(!contains(b"anything", b""));
}

#[test]
fn extensions_and_names_are_the_usual_ones() {
    assert_eq!(Container::Matroska.extension(), "mkv");
    assert_eq!(Container::Jpeg.extension(), "jpg");
    assert_eq!(Container::Heif.name(), "HEIF");
    assert_eq!(Encoding::H265.fourcc(), "hvc1");
    assert_eq!(Encoding::Mpeg4Part2.name(), "MPEG-4 Part 2");
    assert!(Container::Avif.is_demuxable() && !Container::Avif.is_image());
    assert!(!Container::Ogg.is_demuxable());
}

#[test]
fn more_bytes_keep_the_answer() {
    let short = ftyp(b"isom")[..12].to_vec();
    assert_eq!(identify_bytes(&short), Some(Container::Mp4));
    assert_eq!(identify_bytes(&ftyp(b"isom")), Some(Container::Mp4));

    let mut mkv = vec![0x1A, 0x45, 0xDF, 0xA3];
    mkv.extend_from_slice(&[0x01; 8]);
    assert_eq!(identify_bytes(&mkv), Some(Container::Matroska));
    mkv.extend_from_slice(b"webm");
    assert_eq!(identify_bytes(&mkv), Some(Container::WebM));
}

#[test]
fn each_fourcc_names_its_own_encoding() {
    let all = [
        Encoding::H264,
        Encoding::H265,
        Encoding::Av1,
        Encoding::Vp9,
        Encoding::Vp8,
        Encoding::Theora,
        Encoding::ProRes,
        Encoding::Mpeg4Part2,
        Encoding::MotionJpeg,
    ];
    for encoding in all {
        assert_eq!(encoding.fourcc().len(), 4);
        assert_eq!(Encoding::from_codec_id(encoding.fourcc()), Some(encoding));
    }
    assert_eq!(Encoding::from_codec_id(Encoding::Still.fourcc()), None);
}
