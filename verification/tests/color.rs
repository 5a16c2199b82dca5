use vtome::color::{ColorSpace, Matrix, Primaries, Range, Transfer};

#[test]
fn the_guess_follows_the_resolution() {
    assert_eq!(ColorSpace::guess_for(720, 480).matrix, Matrix::Bt601);
    assert_eq!(
        ColorSpace::guess_for(720, 576).primaries,
        Primaries::Bt601_625
    );
    assert_eq!(ColorSpace::guess_for(1920, 1080).matrix, Matrix::Bt709);
    assert_eq!(ColorSpace::guess_for(3840, 2160).matrix, Matrix::Bt2020Ncl);
}

#[test]
fn hdr_curves_are_flagged_as_such() {
    assert!(Transfer::Pq.is_hdr() && Transfer::Hlg.is_hdr());
    assert!(!Transfer::Bt709.is_hdr() && !Transfer::Srgb.is_hdr());
}

#[test]
fn the_guess_is_always_limited_range_video() {
    for (width, height) in [(352, 288), (640, 480), (1280, 720), (4096, 2160), (1920, 2160)] {
        let guess = ColorSpace::guess_for(width, height);
        assert_eq!(guess.range, Range::Limited);
        assert_eq!(guess.transfer, Transfer::Bt709);
    }
    assert_eq!(ColorSpace::guess_for(352, 288).primaries, Primaries::Bt601_625);
    assert_eq!(ColorSpace::guess_for(640, 480).primaries, Primaries::Bt601_525);
    assert_eq!(ColorSpace::guess_for(1920, 2160).primaries, Primaries::Bt2020);
}

#[test]
fn a_still_is_srgb_and_full_range() {
    let still = ColorSpace::srgb();
    assert_eq!(still.transfer, Transfer::Srgb);
    assert_eq!(still.matrix, Matrix::Identity);
    assert_eq!(still.range, Range::Full);
    assert_eq!(ColorSpace::default().range, Range::Limited);
    assert_eq!(ColorSpace::default().matrix, Matrix::Bt709);
}
