use vtome::color::ColorSpace;
use vtome::decode::{backends_for, open, remedy_for, Backend, DecoderConfig, Platform, BACKENDS};
use vtome::media::{Rotation, TrackInfo, TrackKind};
use vtome::{Duration, Encoding, Error};

const PLATFORMS: [Platform; 5] = [
    Platform::Apple,
    Platform::Windows,
    Platform::Android,
    Platform::Unix,
    Platform::Other,
];

fn config(encoding: Encoding) -> DecoderConfig {
    DecoderConfig {
        encoding,
        width: 1920,
        height: 1080,
        bit_depth: 8,
        color: ColorSpace::default(),
        extra_data: Vec::new(),
    }
}

/// At most one platform backend exists on any given machine, and the software
/// ones exist everywhere.
#[test]
fn the_platform_backends_are_mutually_exclusive() {
    for here in PLATFORMS {
        let platform = [
            Backend::VideoToolbox,
            Backend::MediaFoundation,
            Backend::MediaCodec,
            Backend::VaApi,
        ]
        .into_iter()
        .filter(|backend| backend.exists_on(here))
        .count();

        assert!(platform <= 1, "{platform} platform decoders on one machine");
        assert!(Backend::Dav1d.exists_on(here) && Backend::LibVpx.exists_on(here));
    }
}

#[test]
fn hardware_backends_are_marked_as_such() {
    assert!(Backend::VideoToolbox.is_hardware());
    assert!(!Backend::Dav1d.is_hardware());
}

#[test]
fn only_the_platform_backends_offer_the_patented_encodings() {
    assert!(!Backend::Dav1d.handles(Encoding::H264));
    assert!(!Backend::LibVpx.handles(Encoding::H265));
    assert!(Backend::VideoToolbox.handles(Encoding::H264));
}

/// The error has to distinguish "you did not compile it" from "this machine
/// does not have it", because they are different problems.
#[test]
fn a_missing_decoder_names_the_feature_that_would_have_supplied_it() {
    let Err(Error::NoDecoder { remedy, .. }) = open(&config(Encoding::Av1), Platform::Unix) else {
        panic!("no AV1 decoder is implemented yet");
    };

    assert!(
        remedy.contains("dav1d") || remedy.contains("decode-av1"),
        "{remedy}"
    );
}

#[test]
fn an_encoding_nothing_here_can_decode_says_to_transcode_instead() {
    let remedy = remedy_for(Encoding::Theora, Platform::Unix);

    assert!(remedy.contains("transcode"), "{remedy}");
}

#[test]
fn a_track_with_no_recognised_encoding_is_a_different_error_from_no_decoder() {
    let track = TrackInfo {
        id: 3,
        kind: TrackKind::Video,
        encoding: None,
        codec_id: "V_SOMETHING_ELSE".to_string(),
        width: 320,
        height: 240,
        frame_rate: None,
        bit_depth: 8,
        color: ColorSpace::default(),
        rotation: Rotation::default(),
        duration: Duration::zero(),
        extra_data: Vec::new(),
    };

    let result = DecoderConfig::from_track(&track);
    assert!(matches!(result, Err(Error::Unsupported { .. })));
    let Err(Error::Unsupported { what }) = result else {
        unreachable!()
    };
    assert_eq!(
        what,
        "track 3 is \"V_SOMETHING_ELSE\", which vtome does not recognise as a video encoding"
    );
}

#[test]
fn nothing_is_available_without_its_feature() {
    // This build turns none of the decoder backends on, so this is the honest
    // state of the crate today.
    assert!(backends_for(Encoding::Av1).is_empty());
    assert!(backends_for(Encoding::H264).is_empty());
    assert!(BACKENDS.iter().all(|backend| !backend.is_available()));
}

#[test]
fn the_remedy_lists_features_once_each_and_in_order() {
    assert_eq!(
        remedy_for(Encoding::Vp9, Platform::Unix),
        "enable the decode-platform or decode-vp9 features (VA-API, libvpx would handle it here)"
    );
    assert_eq!(
        remedy_for(Encoding::Av1, Platform::Apple),
        "enable the decode-av1 or decode-platform features (VideoToolbox, dav1d would handle it here)"
    );
    assert_eq!(
        remedy_for(Encoding::H264, Platform::Windows),
        "enable the decode-platform feature (Media Foundation would handle it here)"
    );
    assert_eq!(
        remedy_for(Encoding::Vp8, Platform::Other),
        "enable the decode-vp9 feature (libvpx would handle it here)"
    );
    assert_eq!(
        remedy_for(Encoding::H265, Platform::Other),
        "nothing on this platform decodes HEVC, and vtome has no software fallback for it — transcode to AV1 first"
    );
}

#[test]
fn a_decoder_config_carries_the_track_over() {
    let track = TrackInfo {
        id: 1,
        kind: TrackKind::Video,
        encoding: Some(Encoding::H264),
        codec_id: "avc1".to_string(),
        width: 640,
        height: 360,
        frame_rate: None,
        bit_depth: 8,
        color: ColorSpace::guess_for(640, 360),
        rotation: Rotation::default(),
        duration: Duration::zero(),
        extra_data: vec![1, 2, 3],
    };

    let config = DecoderConfig::from_track(&track).unwrap();
    assert_eq!(config.encoding, Encoding::H264);
    assert_eq!((config.width, config.height, config.bit_depth), (640, 360, 8));
    assert_eq!(config.extra_data, vec![1, 2, 3]);
    assert_eq!(config.color, track.color);

    let Err(Error::NoDecoder { encoding, remedy }) = open(&config, Platform::Android) else {
        panic!("nothing decodes yet");
    };
    assert_eq!(encoding, Encoding::H264);
    assert_eq!(remedy, remedy_for(Encoding::H264, Platform::Android));
}

#[test]
fn backend_names_and_features_are_the_documented_ones() {
    assert_eq!(Backend::VaApi.name(), "VA-API");
    assert_eq!(Backend::MediaFoundation.name(), "Media Foundation");
    assert_eq!(Backend::LibVpx.feature(), "decode-vp9");
    assert_eq!(Backend::MediaCodec.feature(), "decode-platform");
    assert_eq!(BACKENDS[0], Backend::VideoToolbox);
}
