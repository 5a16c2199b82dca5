use vtome::render::{
    mode_for, padded_row_bytes, plan_upload, unpad_rows, upload_pitch, Mode, ROW_ALIGNMENT,
};
use vtome::{Error, PixelFormat};

#[test]
fn ten_bit_says_what_is_missing_rather_than_drawing_noise() {
    assert!(matches!(
        mode_for(PixelFormat::P010),
        Err(Error::Unsupported { .. })
    ));
}

#[test]
fn every_other_format_has_a_shader_path() {
    assert_eq!(mode_for(PixelFormat::Rgba8).unwrap(), Mode::Rgba);
    assert_eq!(mode_for(PixelFormat::Bgra8).unwrap(), Mode::Rgba);
    assert_eq!(mode_for(PixelFormat::I422).unwrap(), Mode::Planar);
    assert_eq!(mode_for(PixelFormat::Nv12).unwrap(), Mode::BiPlanar);
}

#[test]
fn an_upload_is_refused_before_anything_is_made() {

    assert!(matches!(
        plan_upload(8192, None, 10, 10, PixelFormat::P010),
        Err(Error::Unsupported { .. })
    ));
    let Err(Error::Render { reason }) = plan_upload(4096, None, 4097, 100, PixelFormat::Rgba8)
    else {
        panic!("past the limit");
    };
    assert_eq!(reason, "4097×100 is past this device's 4096-pixel texture limit");
    assert!(matches!(
        plan_upload(4096, None, 100, 4097, PixelFormat::I420),
        Err(Error::Render { .. })
    ));
}

#[test]
fn textures_are_reused_only_for_the_same_shape() {

    let shape = Some((2, 2, PixelFormat::Rgba8));
    assert_eq!(plan_upload(4096, None, 2, 2, PixelFormat::Rgba8).unwrap(), false);
    assert_eq!(plan_upload(4096, shape, 2, 2, PixelFormat::Rgba8).unwrap(), true);
    assert_eq!(plan_upload(4096, shape, 4, 4, PixelFormat::Rgba8).unwrap(), false);
    assert_eq!(plan_upload(4096, shape, 2, 2, PixelFormat::Bgra8).unwrap(), false);
    assert_eq!(plan_upload(2, shape, 2, 2, PixelFormat::Rgba8).unwrap(), true);
}

#[test]
fn rows_go_up_at_the_wider_of_stride_and_row() {

    assert_eq!(upload_pitch(4096, 3840), 4096);
    assert_eq!(upload_pitch(0, 3840), 3840);
    assert_eq!(upload_pitch(8, 8), 8);
}

#[test]
fn readback_rows_are_padded_to_the_copy_alignment() {

    assert_eq!(ROW_ALIGNMENT, 256);
    assert_eq!(padded_row_bytes(0), 0);
    assert_eq!(padded_row_bytes(1), 256);
    assert_eq!(padded_row_bytes(64), 256);
    assert_eq!(padded_row_bytes(65), 512);
    assert_eq!(padded_row_bytes(1920), 7680);
}

#[test]
fn padding_comes_off_every_row() {

    // Two rows of one pixel, each padded to eight bytes.
    let padded = [1, 2, 3, 4, 0, 0, 0, 0, 5, 6, 7, 8, 9, 9, 9, 9];
    assert_eq!(unpad_rows(&padded, 1, 2, 8), vec![1, 2, 3, 4, 5, 6, 7, 8]);
    assert_eq!(unpad_rows(&padded, 2, 2, 8), padded.to_vec());
    assert!(unpad_rows(&padded, 1, 0, 8).is_empty());
}
