use vtome::color::ColorSpace;
use vtome::frame::{packed_size, Frame, FramePool, PixelFormat, Plane};
use vtome::{Duration, Error};

fn frame_of(format: PixelFormat, width: u32, height: u32) -> Frame {
    let size = packed_size(format, width, height).unwrap();

    Frame::packed(
        width,
        height,
        format,
        ColorSpace::default(),
        Duration::zero(),
        vec![0; size],
    )
    .unwrap()
}

#[test]
fn i420_is_one_and_a_half_bytes_a_pixel() {
    let size = packed_size(PixelFormat::I420, 1920, 1080).unwrap();

    assert_eq!(size, 1920 * 1080 * 3 / 2);
}

/// The off-by-one that eats the right-hand column: 4:2:0 chroma for an odd
/// width has to round up.
#[test]
fn odd_dimensions_round_chroma_up() {
    let format = PixelFormat::I420;

    assert_eq!(format.plane_dimensions(1, 1921, 1081), Some((961, 541)));

    let size = packed_size(format, 1921, 1081).unwrap();
    assert_eq!(size, 1921 * 1081 + 2 * (961 * 541));
}

#[test]
fn nv12_has_two_planes_and_interleaved_chroma() {
    assert_eq!(PixelFormat::Nv12.plane_count(), 2);
    assert_eq!(PixelFormat::Nv12.samples_per_pixel(1), 2);

    let size = packed_size(PixelFormat::Nv12, 640, 480).unwrap();
    assert_eq!(size, 640 * 480 * 3 / 2);
}

#[test]
fn p010_takes_two_bytes_a_sample() {
    assert_eq!(PixelFormat::P010.bit_depth(), 10);
    assert_eq!(
        packed_size(PixelFormat::P010, 640, 480).unwrap(),
        640 * 480 * 3
    );
}

#[test]
fn a_frame_too_small_for_its_dimensions_is_refused() {
    let error = Frame::packed(
        1920,
        1080,
        PixelFormat::I420,
        ColorSpace::default(),
        Duration::zero(),
        vec![0; 100],
    );

    assert!(matches!(error, Err(Error::BadFrame { .. })));
}

#[test]
fn a_zero_sized_picture_is_refused() {
    assert!(matches!(
        packed_size(PixelFormat::I420, 0, 1080),
        Err(Error::BadFrame { .. })
    ));
}

/// Strides are what decoders actually hand back, and the last row is
/// allowed to stop at the end of the picture rather than the end of a
/// stride.
#[test]
fn padded_strides_are_accepted_and_the_last_row_need_not_be_padded() {
    let width = 100_u32;
    let height = 10_u32;
    let stride = 128_usize;

    let luma = stride * (height as usize - 1) + width as usize;
    let chroma_rows = height.div_ceil(2) as usize;
    let chroma = stride * (chroma_rows - 1) + width.div_ceil(2) as usize;

    let planes = vec![
        Plane { offset: 0, stride },
        Plane {
            offset: luma,
            stride,
        },
        Plane {
            offset: luma + chroma,
            stride,
        },
    ];

    let total = luma + 2 * chroma;

    let frame = Frame::with_planes(
        width,
        height,
        PixelFormat::I420,
        ColorSpace::default(),
        Duration::zero(),
        planes,
        vec![0; total],
    )
    .unwrap();

    assert_eq!(frame.row(0, 9).unwrap().len(), width as usize);
    assert!(frame.row(0, 10).is_none(), "there is no eleventh row");
}

#[test]
fn a_stride_shorter_than_a_row_is_refused() {
    let planes = vec![
        Plane {
            offset: 0,
            stride: 10,
        },
        Plane {
            offset: 0,
            stride: 10,
        },
        Plane {
            offset: 0,
            stride: 10,
        },
    ];

    let error = Frame::with_planes(
        100,
        10,
        PixelFormat::I420,
        ColorSpace::default(),
        Duration::zero(),
        planes,
        vec![0; 10_000],
    );

    let Err(Error::BadFrame { reason }) = error else {
        panic!("a 10-byte stride cannot hold a 100-byte row");
    };

    assert!(reason.contains("stride"), "{reason}");
    assert_eq!(reason, "plane 0: stride 10 is shorter than a 100-byte row");
}

/// The hostile case: a header claiming a stride that walks off the end of
/// the buffer. Caught here rather than in a decoder's memcpy.
#[test]
fn a_plane_that_runs_past_the_buffer_is_refused() {
    let planes = vec![
        Plane {
            offset: 0,
            stride: 1024,
        },
        Plane {
            offset: 0,
            stride: 1024,
        },
        Plane {
            offset: 0,
            stride: 1024,
        },
    ];

    let error = Frame::with_planes(
        100,
        100,
        PixelFormat::I420,
        ColorSpace::default(),
        Duration::zero(),
        planes,
        vec![0; 1000],
    );

    assert!(matches!(error, Err(Error::BadFrame { .. })));
    let Err(Error::BadFrame { reason }) = error else {
        unreachable!()
    };
    assert_eq!(reason, "plane 0 runs to byte 101476 of a 1000-byte buffer");
}

#[test]
fn retiming_shares_the_pixels() {
    let frame = frame_of(PixelFormat::I420, 64, 64);
    let moved = frame.with_pts(Duration::from_millis(500));

    assert_eq!(moved.pts(), Duration::from_millis(500));
    assert_eq!(frame.pts(), Duration::zero());
    assert!(
        std::ptr::eq(frame.data().as_ptr(), moved.data().as_ptr()),
        "retiming copied the picture"
    );
}

#[test]
fn the_pool_stops_allocating_once_it_is_warm() {
    let mut pool = FramePool::new(4);
    let size = packed_size(PixelFormat::I420, 320, 240).unwrap();

    for _ in 0..10 {
        let buffer = pool.take(size);
        pool.give(buffer);
    }

    let (reused, allocated) = pool.statistics();
    assert_eq!(allocated, 1, "one allocation should have served all ten");
    assert_eq!(reused, 9);
}

#[test]
fn the_pool_will_not_take_a_buffer_still_being_read() {
    let mut pool = FramePool::new(4);
    let frame = frame_of(PixelFormat::I420, 64, 64);
    let still_held = frame.clone();

    pool.reclaim(frame);
    // Nothing was taken back, so the next request allocates.
    let _ = pool.take(16);
    assert_eq!(pool.statistics(), (0, 1), "that buffer is still in use");

    drop(still_held);
}

#[test]
fn a_frame_no_one_else_holds_goes_back_to_the_pool() {
    let mut pool = FramePool::new(4);
    let frame = frame_of(PixelFormat::I420, 64, 64);

    pool.reclaim(frame);
    let buffer = pool.take(16);
    assert_eq!(buffer, vec![0; 16]);
    assert_eq!(pool.statistics(), (1, 0));
}

#[test]
fn the_pool_reuses_by_capacity_and_takes_the_first_that_fits() {
    let mut pool = FramePool::new(3);
    pool.give(vec![7; 4]);
    pool.give(Vec::with_capacity(64));
    pool.give(vec![9; 32]);

    // The empty buffer has room for 40 bytes although it holds none.
    assert_eq!(pool.take(40), vec![0; 40]);
    assert_eq!(pool.statistics(), (1, 0));
    // Only the 32-byte buffer is left that can take 20.
    assert_eq!(pool.take(20), vec![0; 20]);
    assert_eq!(pool.statistics(), (2, 0));
    // Nothing held can take 64 without growing.
    assert_eq!(pool.take(64), vec![0; 64]);
    assert_eq!(pool.statistics(), (2, 1));
}

#[test]
fn a_default_pool_keeps_nothing() {
    let mut pool = FramePool::default();
    pool.give(vec![0; 8]);
    let _ = pool.take(8);
    assert_eq!(pool.statistics(), (0, 1));
}

#[test]
fn a_full_pool_drops_what_it_is_given() {
    let mut pool = FramePool::new(1);
    pool.give(vec![1; 8]);
    pool.give(vec![2; 8]);
    let first = pool.take(8);
    assert_eq!(first, vec![0; 8], "a reused buffer comes back zeroed");
    let _ = pool.take(8);
    assert_eq!(pool.statistics(), (1, 1));
}

#[test]
fn planes_and_rows_are_where_the_layout_says() {
    let data: Vec<u8> = (0..12).collect();
    let frame = Frame::packed(
        4,
        2,
        PixelFormat::I420,
        ColorSpace::default(),
        Duration::zero(),
        data,
    )
    .unwrap();

    assert_eq!(frame.planes(), &[
        Plane { offset: 0, stride: 4 },
        Plane { offset: 8, stride: 2 },
        Plane { offset: 10, stride: 2 },
    ]);
    assert_eq!(frame.row(0, 1).unwrap(), &[4, 5, 6, 7]);
    assert_eq!(frame.row(2, 0).unwrap(), &[10, 11]);
    assert_eq!(frame.plane_data(1).unwrap(), &[8, 9]);
    assert!(frame.plane_data(3).is_none());
    assert_eq!(frame.byte_len(), 12);
    assert_eq!(frame.data().len(), 12);
    assert_eq!((frame.width(), frame.height()), (4, 2));
    assert_eq!(frame.format(), PixelFormat::I420);
    assert_eq!(frame.color(), ColorSpace::default());
}

#[test]
fn layout_messages_name_the_problem() {
    let Err(Error::BadFrame { reason }) = packed_size(PixelFormat::Nv12, 0, 5) else {
        panic!("no pixels");
    };
    assert_eq!(reason, "a 0×5 picture has no pixels");

    let Err(Error::BadFrame { reason }) = Frame::packed(
        2,
        2,
        PixelFormat::Rgba8,
        ColorSpace::srgb(),
        Duration::zero(),
        vec![0; 15],
    ) else {
        panic!("too short");
    };
    assert_eq!(reason, "2×2 Rgba8 needs 16 bytes, got 15");

    let Err(Error::BadFrame { reason }) = Frame::packed(
        2,
        2,
        PixelFormat::Rgba8,
        ColorSpace::srgb(),
        Duration::zero(),
        vec![0; 17],
    ) else {
        panic!("too long");
    };
    assert_eq!(reason, "2×2 Rgba8 needs 16 bytes, got 17");

    let Err(Error::BadFrame { reason }) = Frame::with_planes(
        2,
        2,
        PixelFormat::Nv12,
        ColorSpace::default(),
        Duration::zero(),
        vec![Plane { offset: 0, stride: 2 }],
        vec![0; 6],
    ) else {
        panic!("one plane is not two");
    };
    assert_eq!(reason, "Nv12 has 2 planes, 1 given");
}

#[test]
fn strides_follow_the_format() {
    assert_eq!(PixelFormat::Rgba8.tight_stride(0, 10), 40);
    assert_eq!(PixelFormat::P010.tight_stride(1, 11), 24);
    assert_eq!(PixelFormat::I422.plane_dimensions(2, 5, 5), Some((3, 5)));
    assert_eq!(PixelFormat::I444.plane_dimensions(3, 5, 5), None);
    assert_eq!(PixelFormat::I422.chroma_shift(), (1, 0));
    assert!(!PixelFormat::Bgra8.is_yuv());
    assert_eq!(PixelFormat::P010.bytes_per_sample(), 2);
}
