//! The crate from the outside, through the public API only: the pieces have
//! to meet, which is where a crate with a clean interior and a wrong seam
//! still fails.

use vtome::clock::Action;
use vtome::color::ColorSpace;
use vtome::decode::{self, DecoderConfig, Platform};
use vtome::{Duration, Encoding, MasterClock, Pacing};

/// The pairing with an audio engine: video chases whatever clock it is given,
/// and drops rather than falls behind.
#[test]
fn playback_follows_an_external_clock() {
    struct AudioClock(Duration);

    impl MasterClock for AudioClock {
        fn position(&self) -> Duration {
            self.0
        }
    }

    let master = AudioClock(Duration::from_millis(1_000));
    // Half a 24 fps frame interval of tolerance.
    let mut pacing = Pacing::with_tolerance(Duration::from_nanos(20_833_333));

    assert_eq!(
        pacing.decide(Duration::from_millis(1_000), master.position()),
        Action::Present
    );
    assert_eq!(
        pacing.decide(Duration::from_millis(200), master.position()),
        Action::Drop,
        "a frame 800 ms late is not worth drawing"
    );
    assert!(matches!(
        pacing.decide(Duration::from_millis(2_000), master.position()),
        Action::Wait(_)
    ));

    let (presented, dropped, _) = pacing.counts();
    assert_eq!((presented, dropped), (1, 1));
}

/// Only the royalty-free encodings can be written. This is the crate's reason
/// for existing, asserted from outside so that it cannot quietly change.
#[test]
fn nothing_patent_encumbered_is_ever_encodable() {
    for encoding in [Encoding::H264, Encoding::H265, Encoding::ProRes] {
        assert!(!encoding.is_encodable(), "{} must not be written", encoding.name());
    }

    for encoding in [Encoding::Av1, Encoding::Vp9] {
        assert!(encoding.is_encodable());
        assert!(encoding.is_royalty_free());
    }
}

/// Decoding is honest about being unimplemented: an error naming what is
/// missing, rather than a decoder that returns nothing.
#[test]
fn asking_for_a_decoder_fails_with_an_explanation() {
    let config = DecoderConfig {
        encoding: Encoding::Av1,
        width: 1920,
        height: 1080,
        bit_depth: 8,
        color: ColorSpace::default(),
        extra_data: Vec::new(),
    };

    for platform in [
        Platform::Apple,
        Platform::Windows,
        Platform::Android,
        Platform::Unix,
        Platform::Other,
    ] {
        let Err(vtome::Error::NoDecoder { remedy, .. }) = decode::open(&config, platform) else {
            panic!("no decoder backend is implemented yet");
        };

        assert!(
            !remedy.is_empty(),
            "an unhelpful refusal is worse than none"
        );
    }
}
