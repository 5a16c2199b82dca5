use vtome::bitstream::AvcConfig;
use vtome::color::{Matrix, Range};
use vtome::demux::{
    color_from, earliest_pending, indexed_media_info, keyframe_landing, matroska_track, mp4_track,
    order_by_id, parameter_sets, route, sample_exists, sample_timing, scaled, ticks_per_second,
    Family, MatroskaVideo, SampleCursor,
};
use vtome::media::{Rational, Rotation, TrackKind};
use vtome::{Container, Duration, Encoding, Error, Packet};

#[test]
fn timescales_convert_without_overflowing() {
    assert_eq!(scaled(90_000, 90_000), Duration::from_secs(1));
    assert_eq!(scaled(1_500, 1_000), Duration::from_millis(1_500));

    // Two hours at a nanosecond timescale, which overflows u64 if the
    // multiply happens before the divide in 64 bits.
    let two_hours = 7_200 * 1_000_000_000_u64;
    assert_eq!(scaled(two_hours, 1_000_000_000), Duration::from_secs(7_200));
}

#[test]
fn a_zero_timescale_does_not_divide_by_zero() {
    assert_eq!(scaled(1_000, 0), Duration::zero());
}

#[test]
fn container_metadata_wins_over_the_guess() {
    // 4K, so the guess would be BT.2020.
    let guessed = color_from(None, None, 3840, 2160);
    assert_eq!(guessed.matrix, Matrix::Bt2020Ncl);

    let stated = color_from(Some(Matrix::Bt709), Some(Range::Full), 3840, 2160);
    assert_eq!(stated.matrix, Matrix::Bt709);
    assert_eq!(stated.range, Range::Full);
}

#[test]
fn a_still_image_is_pointed_at_the_image_loader_rather_than_a_demuxer() {
    let Err(Error::Unsupported { what }) = route(Container::Png, "picture.png") else {
        panic!("a PNG is not a container to demux");
    };

    assert!(what.contains("load_image"), "{what}");
    assert!(what.starts_with("picture.png is a PNG"), "{what}");
}

#[test]
fn a_container_we_identify_but_do_not_open_says_so() {
    let Err(Error::Unsupported { what }) = route(Container::Avi, "old.avi") else {
        panic!("AVI is identified and not opened");
    };

    assert!(what.contains("Transcode"), "{what}");
    assert_eq!(
        what,
        "old.avi is a AVI, which vtome identifies but does not open. Transcode it to WebM or MP4 first"
    );
}

#[test]
fn every_demuxable_container_has_a_reader() {
    for container in [Container::Mp4, Container::Avif, Container::Heif] {
        assert_eq!(route(container, "x").unwrap(), Family::IsoMedia);
    }
    for container in [Container::Matroska, Container::WebM] {
        assert_eq!(route(container, "x").unwrap(), Family::Matroska);
    }
}

#[test]
fn rebuilt_parameter_sets_parse_back() {
    let sps = [0x67, 0x64, 0x00, 0x28, 0xAC];
    let pps = [0x68, 0xEE, 0x38];
    let record = parameter_sets(Some(&sps), Some(&pps));

    let config = AvcConfig::parse(&record).unwrap();
    assert_eq!(config.nal_length_size, 4);
    assert_eq!(config.sequence_parameter_sets, vec![sps.to_vec()]);
    assert_eq!(config.picture_parameter_sets, vec![pps.to_vec()]);

    assert!(parameter_sets(Some(&[0x67, 0x64]), Some(&pps)).is_empty());
    assert!(parameter_sets(None, Some(&pps)).is_empty());
}

#[test]
fn decode_time_follows_the_rendering_offset() {
    let (pts, dts) = sample_timing(3_000, 1_000, 1_000);
    assert_eq!(pts, Duration::from_secs(3));
    assert_eq!(dts, Duration::from_secs(2));

    let (pts, dts) = sample_timing(3_000, -500, 1_000);
    assert_eq!(pts, Duration::from_secs(3));
    assert_eq!(dts, Duration::from_millis(3_500));

    let (_, dts) = sample_timing(100, 1_000, 1_000);
    assert_eq!(dts, Duration::zero(), "decode time never goes before zero");
}

#[test]
fn a_seek_lands_on_the_last_keyframe_at_or_before_it() {
    let keyframes = vec![
        (1, Duration::zero()),
        (25, Duration::from_secs(1)),
        (49, Duration::from_secs(2)),
    ];

    assert_eq!(keyframe_landing(&keyframes, Duration::from_millis(1_500)), 25);
    assert_eq!(keyframe_landing(&keyframes, Duration::from_secs(2)), 49);
    assert_eq!(keyframe_landing(&keyframes, Duration::from_secs(9)), 49);
    assert_eq!(keyframe_landing(&Vec::new(), Duration::from_secs(9)), 1);
}

#[test]
fn the_earliest_packet_comes_out_first() {
    let pending = vec![
        Some(Duration::from_millis(40)),
        None,
        Some(Duration::from_millis(20)),
        Some(Duration::from_millis(20)),
    ];
    assert_eq!(earliest_pending(&pending), Some(2));
    assert_eq!(earliest_pending(&vec![None, None]), None);
    assert_eq!(earliest_pending(&Vec::new()), None);
}

fn bare_track(id: u32, codec_id: &str) -> vtome::TrackInfo {
    mp4_track(
        id,
        TrackKind::Audio,
        codec_id.to_string(),
        0,
        0,
        None,
        Duration::from_secs(1),
        None,
        None,
    )
}

#[test]
fn track_ids_come_out_in_order() {
    let tracks = vec![
        bare_track(3, "c"),
        bare_track(1, "a"),
        bare_track(2, "b"),
        bare_track(1, "z"),
    ];
    let ordered: Vec<(u32, String)> = order_by_id(tracks)
        .into_iter()
        .map(|track| (track.id, track.codec_id))
        .collect();
    assert_eq!(ordered, vec![
        (1, "a".to_string()),
        (1, "z".to_string()),
        (2, "b".to_string()),
        (3, "c".to_string()),
    ]);
    assert!(order_by_id(Vec::new()).is_empty());
}

#[test]
fn an_indexed_file_is_seekable_and_keeps_its_tracks() {
    let info = indexed_media_info(
        Container::WebM,
        vec![bare_track(2, "b"), bare_track(1, "a")],
        Duration::from_secs(7),
    );
    assert_eq!(info.container, Container::WebM);
    assert!(info.seekable);
    assert_eq!(info.duration, Duration::from_secs(7));
    let ids: Vec<u32> = info.tracks.iter().map(|track| track.id).collect();
    assert_eq!(ids, vec![2, 1]);
}

#[test]
fn mp4_tracks_are_described_by_kind() {
    let sps = [0x67, 0x42, 0x00, 0x1E];
    let pps = [0x68, 0xCE];
    let video = mp4_track(
        1,
        TrackKind::Video,
        "avc1".to_string(),
        1280,
        720,
        Some(Rational::new(30, 1)),
        Duration::from_secs(5),
        Some(&sps),
        Some(&pps),
    );
    assert_eq!(video.encoding, Some(Encoding::H264));
    assert_eq!((video.width, video.height, video.bit_depth), (1280, 720, 8));
    assert_eq!(video.rotation, Rotation::Upright);
    assert_eq!(AvcConfig::parse(&video.extra_data).unwrap().nal_length_size, 4);

    let audio = mp4_track(
        2,
        TrackKind::Audio,
        "mp4a".to_string(),
        0,
        0,
        None,
        Duration::from_secs(5),
        None,
        None,
    );
    assert_eq!(audio.encoding, None);
    assert_eq!(audio.kind, TrackKind::Audio);
    assert!(audio.extra_data.is_empty());
}

#[test]
fn matroska_tracks_keep_their_stated_colour() {
    let track = matroska_track(
        1,
        TrackKind::Video,
        "V_AV1".to_string(),
        vec![0x81],
        Duration::from_secs(3),
        Some(MatroskaVideo {
            width: 3840,
            height: 2160,
            bit_depth: Some(10),
            matrix: Some(Matrix::Bt709),
            range: None,
            frame_rate: Some(Rational::new(24_000, 1000)),
        }),
    );
    assert_eq!(track.encoding, Some(Encoding::Av1));
    assert_eq!(track.bit_depth, 10);
    assert_eq!(track.color.matrix, Matrix::Bt709);
    assert_eq!(track.color.range, Range::Limited);
    assert_eq!(track.extra_data, vec![0x81]);

    let subtitles = matroska_track(
        2,
        TrackKind::Subtitle,
        "S_TEXT/UTF8".to_string(),
        Vec::new(),
        Duration::from_secs(3),
        None,
    );
    assert_eq!(subtitles.kind, TrackKind::Subtitle);
    assert_eq!(subtitles.encoding, None);

    assert_eq!(ticks_per_second(1_000_000), 1_000);
    assert_eq!(ticks_per_second(0), 1_000_000_000);
}

#[test]
fn a_cursor_reads_ahead_one_packet_and_remembers_keyframes() {
    let mut cursor = SampleCursor::new(7);
    assert_eq!(cursor.track_id(), 7);
    assert_eq!(cursor.wanted(), Some(1));

    cursor.accept(1, Packet::new(7, vec![1], Duration::zero(), true));
    assert_eq!(cursor.wanted(), None, "the slot is full");
    assert_eq!(cursor.pending_dts(), Some(Duration::zero()));

    let packet = cursor.take_pending().unwrap();
    assert_eq!(packet.data, vec![1]);
    assert_eq!(cursor.wanted(), Some(2));
    assert_eq!(cursor.scan_from(), 2);

    // A seek scans on from there, and stops past the target.
    assert!(cursor.note_scanned(2, Duration::from_secs(1), false, Duration::from_secs(2)));
    assert!(cursor.note_scanned(3, Duration::from_secs(2), true, Duration::from_secs(2)));
    assert!(!cursor.note_scanned(4, Duration::from_secs(3), false, Duration::from_secs(2)));
    assert_eq!(cursor.landing(Duration::from_secs(2)), 3);
    assert_eq!(cursor.landing(Duration::from_millis(500)), 1);

    cursor.rewind(3);
    assert_eq!(cursor.wanted(), Some(3));
    assert_eq!(cursor.scan_from(), 5);
}

#[test]
fn sample_numbers_start_at_one() {
    assert!(!sample_exists(0, 10));
    assert!(sample_exists(1, 10));
    assert!(sample_exists(10, 10));
    assert!(!sample_exists(11, 10));
}
