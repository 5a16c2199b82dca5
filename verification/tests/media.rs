use vtome::color::ColorSpace;
use vtome::media::{MediaInfo, Packet, Rational, Rotation, TrackInfo, TrackKind};
use vtome::{Container, Duration, Encoding};

#[test]
fn rotation_rounds_to_quarter_turns_and_transposes() {
    assert_eq!(Rotation::from_degrees(90), Rotation::Quarter);
    assert_eq!(Rotation::from_degrees(-90), Rotation::ThreeQuarters);
    assert_eq!(Rotation::from_degrees(359), Rotation::Upright);
    assert_eq!(Rotation::from_degrees(450), Rotation::Quarter);

    assert!(Rotation::Quarter.is_transposed());
    assert!(!Rotation::Half.is_transposed());
}

/// The sideways-phone-video case.
#[test]
fn a_rotated_track_reports_the_size_it_should_be_shown_at() {
    let track = TrackInfo {
        id: 1,
        kind: TrackKind::Video,
        encoding: Some(Encoding::H264),
        codec_id: "avc1".to_string(),
        width: 1920,
        height: 1080,
        frame_rate: Some(Rational::new(30, 1)),
        bit_depth: 8,
        color: ColorSpace::default(),
        rotation: Rotation::Quarter,
        duration: Duration::from_secs(10),
        extra_data: Vec::new(),
    };

    assert_eq!(track.display_size(), (1080, 1920));
    assert!(track.is_decodable());
}

#[test]
fn a_file_reports_its_video_track_and_whether_there_is_sound() {
    let video = TrackInfo {
        id: 1,
        kind: TrackKind::Video,
        encoding: Some(Encoding::Av1),
        codec_id: "av01".to_string(),
        width: 640,
        height: 480,
        frame_rate: None,
        bit_depth: 8,
        color: ColorSpace::default(),
        rotation: Rotation::Upright,
        duration: Duration::from_secs(1),
        extra_data: Vec::new(),
    };

    let audio = TrackInfo {
        id: 2,
        kind: TrackKind::Audio,
        encoding: None,
        codec_id: "opus".to_string(),
        ..video.clone()
    };

    let info = MediaInfo {
        container: Container::WebM,
        tracks: vec![audio, video.clone()],
        duration: Duration::from_secs(1),
        seekable: true,
    };

    assert_eq!(info.video().unwrap().id, video.id);
    assert!(info.has_audio(), "the audio track should be reported");
    assert!(info.is_royalty_free());
}

#[test]
fn a_zero_denominator_does_not_divide_by_zero() {
    let broken = Rational::new(24, 0);

    assert_eq!(broken.denominator, 1);
    assert!((f64::from(broken.numerator) / f64::from(broken.denominator)).is_finite());
    assert_eq!(broken.numerator, 24);
    assert_eq!(Rational::new(30000, 1001).denominator, 1001);
}

#[test]
fn rotations_round_at_the_half_way_marks() {
    assert_eq!(Rotation::from_degrees(44), Rotation::Upright);
    assert_eq!(Rotation::from_degrees(45), Rotation::Quarter);
    assert_eq!(Rotation::from_degrees(134), Rotation::Quarter);
    assert_eq!(Rotation::from_degrees(135), Rotation::Half);
    assert_eq!(Rotation::from_degrees(225), Rotation::ThreeQuarters);
    assert_eq!(Rotation::from_degrees(315), Rotation::Upright);
    assert_eq!(Rotation::from_degrees(i32::MIN), Rotation::ThreeQuarters);
    assert_eq!(Rotation::from_degrees(i32::MAX), Rotation::Quarter);
    assert_eq!(Rotation::ThreeQuarters.degrees(), 270);
}

#[test]
fn a_file_without_video_has_no_video_and_no_royalty_question() {
    let audio = TrackInfo {
        id: 2,
        kind: TrackKind::Audio,
        encoding: None,
        codec_id: "opus".to_string(),
        width: 0,
        height: 0,
        frame_rate: None,
        bit_depth: 0,
        color: ColorSpace::default(),
        rotation: Rotation::Upright,
        duration: Duration::from_secs(1),
        extra_data: Vec::new(),
    };
    let mut h264 = audio.clone();
    h264.kind = TrackKind::Video;
    h264.encoding = Some(Encoding::H264);

    let silent_film = MediaInfo {
        container: Container::Mp4,
        tracks: vec![h264.clone()],
        duration: Duration::from_secs(1),
        seekable: true,
    };
    assert!(!silent_film.has_audio());
    assert!(!silent_film.is_royalty_free());

    let radio = MediaInfo {
        container: Container::WebM,
        tracks: vec![audio],
        duration: Duration::from_secs(1),
        seekable: true,
    };
    assert!(radio.video().is_none());
    assert!(!radio.is_royalty_free());
}

#[test]
fn a_packet_is_decoded_when_it_is_shown() {
    let packet = Packet::new(7, vec![1, 2, 3], Duration::from_millis(40), true);
    assert_eq!(packet.dts, packet.pts);
    assert_eq!(packet.len(), 3);
    assert!(!packet.is_empty());
    assert!(Packet::new(7, Vec::new(), Duration::zero(), false).is_empty());
}

#[test]
fn a_frame_lasts_exactly_what_its_rate_says() {
    assert_eq!(Rational::new(30000, 1001).frame_duration(), Duration::from_nanos(33_366_667));
    assert_eq!(Rational::new(25, 1).frame_duration(), Duration::from_millis(40));
    assert_eq!(Rational::new(24, 1).frame_duration(), Duration::from_nanos(41_666_667));
    assert_eq!(Rational::new(0, 1).frame_duration(), Duration::zero());
}
