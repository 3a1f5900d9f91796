use ncnn_rs::allocator::Allocator;
use ncnn_rs::border::{copy_cut_border, copy_cut_border_3d, copy_make_border, copy_make_border_3d};
use ncnn_rs::error::{Extent, MatError};
use ncnn_rs::mat::{cast_into_i32, Mat};
use ncnn_rs::option::Option as NetOption;
use ncnn_rs::pixel::{BorderType, PixelType};

fn scalar(m: &Mat, x: u32, y: u32, q: u32) -> f32 {
    let at = ((q * m.channel_step() + y * m.width() + x) * m.element_size()) as usize;
    let d = m.data();
    f32::from_bits(u32::from_le_bytes([d[at], d[at + 1], d[at + 2], d[at + 3]]))
}

fn ramp(width: u32, height: u32, channels: u32) -> Mat {
    let mut m = Mat::new_3d(width, height, channels, None).unwrap();
    let step = m.channel_step();
    let mut bytes = vec![0u8; m.data().len()];
    for q in 0..channels {
        for y in 0..height {
            for x in 0..width {
                let v = (q * 100 + y * 10 + x) as f32;
                let at = ((q * step + y * width + x) * 4) as usize;
                bytes[at..at + 4].copy_from_slice(&v.to_bits().to_le_bytes());
            }
        }
    }
    m.store(&bytes).unwrap();
    m
}

#[test]
fn basic_getter_and_setter() {
    let m = Mat::new_3d(224, 224, 3, None).unwrap();
    assert_eq!(224, m.height());
    assert_eq!(224, m.width());
    assert_eq!(3, m.channels());
}

#[test]
fn new_3d_layout() {
    let m = Mat::new_3d(5, 3, 2, None).unwrap();
    assert_eq!(m.dimensions(), 3);
    assert_eq!(m.depth(), 1);
    assert_eq!(m.element_size(), 4);
    assert_eq!(m.element_packing(), 1);
    // 15 elements of 4 bytes are 60 bytes, padded to 64: 16 elements.
    assert_eq!(m.channel_step(), 16);
    assert_eq!(m.data().len(), 16 * 2 * 4);
    assert!(m.data().iter().all(|b| *b == 0));
    assert!(!m.is_external());
    assert_eq!(m.allocator(), None);
}

#[test]
fn new_1d_2d_4d_layout() {
    let a = Allocator::new();
    let m = Mat::new_1d(7, Some(&a)).unwrap();
    assert_eq!((m.dimensions(), m.width(), m.height(), m.depth(), m.channels()), (1, 7, 1, 1, 1));
    assert_eq!(m.channel_step(), 7);
    assert_eq!(m.allocator(), Some(a));
    let m = Mat::new_2d(7, 3, None).unwrap();
    assert_eq!((m.dimensions(), m.width(), m.height(), m.depth(), m.channels()), (2, 7, 3, 1, 1));
    assert_eq!(m.channel_step(), 21);
    assert_eq!(m.data().len(), 84);
    let m = Mat::new_4d(3, 2, 5, 7, None).unwrap();
    assert_eq!((m.dimensions(), m.width(), m.height(), m.depth(), m.channels()), (4, 3, 2, 7, 5));
    // 42 elements are 168 bytes, padded to 176: 44 elements.
    assert_eq!(m.channel_step(), 44);
    assert_eq!(m.data().len(), 44 * 5 * 4);
}

#[test]
fn empty_tensor() {
    let m = Mat::new();
    assert_eq!((m.dimensions(), m.width(), m.height(), m.depth(), m.channels()), (0, 0, 0, 0, 0));
    assert_eq!((m.element_size(), m.element_packing(), m.channel_step()), (0, 0, 0));
    assert!(m.data().is_empty());
    let d = Mat::default();
    assert_eq!(d.dimensions(), 0);
}

#[test]
fn sizes_beyond_31_bits_are_refused() {
    assert_eq!(Mat::new_1d(0x8000_0000, None).unwrap_err(), MatError::InvalidSize(Extent::Width));
    assert_eq!(Mat::new_2d(1, 0x8000_0000, None).unwrap_err(), MatError::InvalidSize(Extent::Height));
    assert_eq!(
        Mat::new_2d(0xffff_ffff, 0x8000_0000, None).unwrap_err(),
        MatError::InvalidSize(Extent::Width)
    );
    assert_eq!(
        Mat::new_3d(1, 1, 0x8000_0000, None).unwrap_err(),
        MatError::InvalidSize(Extent::Channels)
    );
    assert_eq!(
        Mat::new_4d(1, 1, 0x8000_0000, 0x8000_0000, None).unwrap_err(),
        MatError::InvalidSize(Extent::Channels)
    );
    assert_eq!(
        Mat::new_4d(1, 1, 1, 0x8000_0000, None).unwrap_err(),
        MatError::InvalidSize(Extent::Depth)
    );
    assert_eq!(cast_into_i32(0x7fff_ffff, Extent::Top), Ok(0x7fff_ffff));
    assert_eq!(cast_into_i32(0x8000_0000, Extent::Top), Err(MatError::InvalidSize(Extent::Top)));
}

#[test]
fn shapes_that_cannot_be_represented_are_refused() {
    assert_eq!(
        Mat::new_3d(0x7fff_ffff, 0x7fff_ffff, 1, None).unwrap_err(),
        MatError::SizeOverflow
    );
    assert_eq!(
        Mat::new_2d(0x7fff_ffff, 0x7fff_ffff, None).unwrap_err(),
        MatError::SizeOverflow
    );
}

#[test]
fn external_buffer_is_kept() {
    let data: Vec<u8> = (0..64u8).collect();
    let m = Mat::new_external_3d(2, 2, 2, data.clone(), None).unwrap();
    assert!(m.is_external());
    assert_eq!(m.channel_step(), 4);
    assert_eq!(m.data(), &data[..]);
    let m = Mat::new_external_1d(16, data.clone(), None).unwrap();
    assert_eq!((m.dimensions(), m.width()), (1, 16));
    let m = Mat::new_external_2d(4, 4, data.clone(), None).unwrap();
    assert_eq!((m.dimensions(), m.width(), m.height()), (2, 4, 4));
    let m = Mat::new_external_4d(2, 2, 2, 2, data.clone(), None).unwrap();
    assert_eq!((m.dimensions(), m.depth(), m.channels(), m.channel_step()), (4, 2, 2, 8));
    assert_eq!(
        Mat::new_external_1d(0x8000_0000, data, None).unwrap_err(),
        MatError::InvalidSize(Extent::Width)
    );
}

#[test]
fn stride() {
    assert_eq!(PixelType::Bgr.stride(), 3);
    assert_eq!(PixelType::Bgra.stride(), 4);
    assert_eq!(PixelType::Gray.stride(), 1);
    assert_eq!(PixelType::Rgb.stride(), 3);
    assert_eq!(PixelType::Rgba.stride(), 4);

    assert_eq!(PixelType::RgbToBgr.stride(), 3);
    assert_eq!(PixelType::RgbToGray.stride(), 3);
    assert_eq!(PixelType::RgbToRgba.stride(), 3);
    assert_eq!(PixelType::RgbToBgra.stride(), 3);

    assert_eq!(PixelType::BgrToRgb.stride(), 3);
    assert_eq!(PixelType::BgrToGray.stride(), 3);
    assert_eq!(PixelType::BgrToRgba.stride(), 3);
    assert_eq!(PixelType::BgrToBgra.stride(), 3);

    assert_eq!(PixelType::GrayToRgb.stride(), 1);
    assert_eq!(PixelType::GrayToBgr.stride(), 1);
    assert_eq!(PixelType::GrayToRgba.stride(), 1);
    assert_eq!(PixelType::GrayToBgra.stride(), 1);

    assert_eq!(PixelType::RgbaToRgb.stride(), 4);
    assert_eq!(PixelType::RgbaToBgr.stride(), 4);
    assert_eq!(PixelType::RgbaToGray.stride(), 4);
    assert_eq!(PixelType::RgbaToBgra.stride(), 4);

    assert_eq!(PixelType::BgraToRgb.stride(), 4);
    assert_eq!(PixelType::BgraToBgr.stride(), 4);
    assert_eq!(PixelType::BgraToGray.stride(), 4);
    assert_eq!(PixelType::BgraToRgba.stride(), 4);
}

#[test]
fn pixel_codes() {
    assert_eq!(PixelType::Rgb.to_int(), 1);
    assert_eq!(PixelType::Bgr.to_int(), 2);
    assert_eq!(PixelType::Gray.to_int(), 3);
    assert_eq!(PixelType::Rgba.to_int(), 4);
    assert_eq!(PixelType::Bgra.to_int(), 5);
    assert_eq!(PixelType::RgbToBgr.to_int(), 1 | (2 << 16));
    assert_eq!(PixelType::RgbToGray.to_int(), 0x3_0001);
    assert_eq!(PixelType::BgraToRgba.to_int(), 0x4_0005);
    assert_eq!(PixelType::GrayToBgra.to_int(), 0x5_0003);
    assert_eq!(PixelType::RgbaToGray.channels(), 1);
    assert_eq!(PixelType::GrayToRgb.channels(), 3);
    assert_eq!(PixelType::Bgr.channels(), 3);
    assert_eq!(PixelType::RgbToBgra.channels(), 4);
}

#[test]
fn border_codes() {
    assert_eq!(BorderType::Constant.to_int(), 0);
    assert_eq!(BorderType::Replicate.to_int(), 1);
    assert_eq!(BorderType::Reflect.to_int(), 2);
    assert_eq!(BorderType::Transparent.to_int(), -233);
}

#[test]
fn from_pixels_checks_the_length() {
    let data = vec![0u8; 4 * 3 * 3];
    let m = Mat::from_pixels(&data, PixelType::Rgb, 4, 3, None).unwrap();
    assert_eq!((m.dimensions(), m.width(), m.height(), m.channels()), (3, 4, 3, 3));
    let m = Mat::from_pixels(&data, PixelType::RgbToGray, 4, 3, None).unwrap();
    assert_eq!(m.channels(), 1);
    let m = Mat::from_pixels(&data, PixelType::BgrToRgba, 4, 3, None).unwrap();
    assert_eq!(m.channels(), 4);
    assert_eq!(
        Mat::from_pixels(&data[..35], PixelType::Rgb, 4, 3, None).unwrap_err(),
        MatError::DataTooShort { expected: 36, provided: 35 }
    );
    assert_eq!(
        Mat::from_pixels(&data, PixelType::Rgba, 4, 3, None).unwrap_err(),
        MatError::DataTooShort { expected: 48, provided: 36 }
    );
    assert_eq!(
        Mat::from_pixels(&data, PixelType::Rgb, 0x8000_0000, 3, None).unwrap_err(),
        MatError::InvalidSize(Extent::Width)
    );
    assert_eq!(
        Mat::from_pixels(&data, PixelType::Rgb, 4, 0x8000_0000, None).unwrap_err(),
        MatError::InvalidSize(Extent::Height)
    );
    // longer than needed is accepted
    let m = Mat::from_pixels(&data, PixelType::Gray, 4, 3, None).unwrap();
    assert_eq!(m.channels(), 1);
}

#[test]
fn from_pixels_resize_takes_the_target_size() {
    let data = vec![0u8; 4 * 3 * 3];
    let m = Mat::from_pixels_resize(&data, PixelType::RgbToBgr, 4, 3, 8, 6, None).unwrap();
    assert_eq!((m.dimensions(), m.width(), m.height(), m.channels()), (3, 8, 6, 3));
    assert_eq!(
        Mat::from_pixels_resize(&data, PixelType::Rgb, 4, 4, 8, 6, None).unwrap_err(),
        MatError::DataTooShort { expected: 48, provided: 36 }
    );
    assert_eq!(
        Mat::from_pixels_resize(&data, PixelType::Rgb, 4, 3, 0x8000_0000, 6, None).unwrap_err(),
        MatError::InvalidSize(Extent::TargetWidth)
    );
    assert_eq!(
        Mat::from_pixels_resize(&data, PixelType::Rgb, 4, 3, 8, 0x8000_0000, None).unwrap_err(),
        MatError::InvalidSize(Extent::TargetHeight)
    );
}

#[test]
fn coefficient_arrays_must_cover_the_channels() {
    let m = Mat::new_3d(2, 2, 3, None).unwrap();
    assert_eq!(m.check_coefficients(None, None), Ok(()));
    assert_eq!(m.check_coefficients(Some(3), Some(3)), Ok(()));
    assert_eq!(m.check_coefficients(Some(4), None), Ok(()));
    assert_eq!(
        m.check_coefficients(Some(2), Some(3)),
        Err(MatError::DataTooShort { expected: 3, provided: 2 })
    );
    assert_eq!(
        m.check_coefficients(Some(3), Some(1)),
        Err(MatError::DataTooShort { expected: 3, provided: 1 })
    );
    assert_eq!(
        m.check_coefficients(Some(0), Some(1)),
        Err(MatError::DataTooShort { expected: 3, provided: 0 })
    );
}

#[test]
fn fill_overwrites_every_element() {
    let mut m = Mat::new_3d(3, 2, 2, None).unwrap();
    m.fill(2.5f32.to_bits());
    for q in 0..2 {
        for y in 0..2 {
            for x in 0..3 {
                assert_eq!(scalar(&m, x, y, q), 2.5);
            }
        }
    }
    let word = 2.5f32.to_bits().to_le_bytes();
    for (i, b) in m.data().iter().enumerate() {
        assert_eq!(*b, word[i % 4]);
    }
}

#[test]
fn store_replaces_the_elements() {
    let mut m = Mat::new_1d(2, None).unwrap();
    assert_eq!(
        m.store(&[1, 2, 3]).unwrap_err(),
        MatError::DataTooShort { expected: 8, provided: 3 }
    );
    assert!(m.data().iter().all(|b| *b == 0));
    m.store(&[1, 2, 3, 4, 5, 6, 7, 8, 9]).unwrap();
    assert_eq!(m.data(), &[1, 2, 3, 4, 5, 6, 7, 8]);
}

#[test]
fn clone_copies_shape_and_bytes() {
    let m = ramp(3, 2, 2);
    let n = m.clone();
    assert_eq!(n.data(), m.data());
    assert_eq!((n.width(), n.height(), n.channels()), (3, 2, 2));
    assert_eq!(n.channel_step(), m.channel_step());
}

#[test]
fn constant_border() {
    let src = ramp(3, 2, 2);
    let mut dst = Mat::new();
    let opt = NetOption::new();
    copy_make_border(&src, &mut dst, 1, 2, 3, 4, BorderType::Constant, 7.0f32.to_bits(), &opt)
        .unwrap();
    assert_eq!((dst.dimensions(), dst.width(), dst.height(), dst.channels()), (3, 10, 5, 2));
    for q in 0..2 {
        for y in 0..5 {
            for x in 0..10 {
                let inside = (3..6).contains(&x) && (1..3).contains(&y);
                let expect = if inside {
                    (q * 100 + (y - 1) * 10 + (x - 3)) as f32
                } else {
                    7.0
                };
                assert_eq!(scalar(&dst, x, y, q), expect, "at {} {} {}", x, y, q);
            }
        }
    }
    // 50 elements are 200 bytes, padded to 208: 52 elements; the padding is zero.
    assert_eq!(dst.channel_step(), 52);
    assert_eq!(&dst.data()[200..208], &[0u8; 8]);
}

#[test]
fn replicate_border() {
    let src = ramp(3, 2, 1);
    let mut dst = Mat::new();
    let opt = NetOption::new();
    copy_make_border(&src, &mut dst, 1, 1, 2, 2, BorderType::Replicate, 0, &opt).unwrap();
    assert_eq!((dst.width(), dst.height()), (7, 4));
    let rows: [[f32; 7]; 4] = [
        [0.0, 0.0, 0.0, 1.0, 2.0, 2.0, 2.0],
        [0.0, 0.0, 0.0, 1.0, 2.0, 2.0, 2.0],
        [10.0, 10.0, 10.0, 11.0, 12.0, 12.0, 12.0],
        [10.0, 10.0, 10.0, 11.0, 12.0, 12.0, 12.0],
    ];
    for y in 0..4 {
        for x in 0..7 {
            assert_eq!(scalar(&dst, x, y, 0), rows[y as usize][x as usize]);
        }
    }
}

#[test]
fn reflect_border() {
    let src = ramp(4, 1, 1);
    let mut dst = Mat::new();
    let opt = NetOption::new();
    copy_make_border(&src, &mut dst, 0, 0, 5, 5, BorderType::Reflect, 0, &opt).unwrap();
    assert_eq!((dst.width(), dst.height()), (14, 1));
    // source indices: period 6 in both directions
    let expect = [1.0, 2.0, 3.0, 2.0, 1.0, 0.0, 1.0, 2.0, 3.0, 2.0, 1.0, 0.0, 1.0, 2.0];
    for x in 0..14 {
        assert_eq!(scalar(&dst, x, 0, 0), expect[x as usize], "at {}", x);
    }
}

#[test]
fn transparent_border_is_not_filled() {
    let src = ramp(2, 1, 1);
    let mut dst = Mat::new();
    let opt = NetOption::new();
    copy_make_border(&src, &mut dst, 0, 0, 1, 1, BorderType::Transparent, 9.0f32.to_bits(), &opt)
        .unwrap();
    assert_eq!(scalar(&dst, 0, 0, 0), 0.0);
    assert_eq!(scalar(&dst, 1, 0, 0), 0.0);
    assert_eq!(scalar(&dst, 2, 0, 0), 1.0);
    assert_eq!(scalar(&dst, 3, 0, 0), 0.0);
}

#[test]
fn border_3d_adds_channels_to_three_dimensions() {
    let src = ramp(2, 2, 2);
    let mut dst = Mat::new();
    let opt = NetOption::new();
    copy_make_border_3d(&src, &mut dst, 0, 0, 0, 0, 1, 2, BorderType::Constant, 1.5f32.to_bits(), &opt)
        .unwrap();
    assert_eq!((dst.dimensions(), dst.width(), dst.height(), dst.depth(), dst.channels()), (3, 2, 2, 1, 5));
    for q in 0..5u32 {
        for y in 0..2 {
            for x in 0..2 {
                let expect = if (1..3).contains(&q) {
                    ((q - 1) * 100 + y * 10 + x) as f32
                } else {
                    1.5
                };
                assert_eq!(scalar(&dst, x, y, q), expect);
            }
        }
    }
}

#[test]
fn border_3d_adds_slices_to_four_dimensions() {
    let mut src = Mat::new_4d(2, 2, 2, 3, None).unwrap();
    src.fill(4.0f32.to_bits());
    let mut dst = Mat::new();
    let opt = NetOption::new();
    copy_make_border_3d(&src, &mut dst, 1, 1, 1, 1, 2, 1, BorderType::Constant, 0, &opt).unwrap();
    assert_eq!((dst.dimensions(), dst.width(), dst.height(), dst.depth(), dst.channels()), (4, 4, 4, 6, 2));
    let mut back = Mat::new();
    copy_cut_border_3d(&dst, &mut back, 1, 1, 1, 1, 2, 1, &opt).unwrap();
    assert_eq!((back.dimensions(), back.width(), back.height(), back.depth(), back.channels()), (4, 2, 2, 3, 2));
    assert_eq!(back.data(), src.data());
}

#[test]
fn one_dimension_takes_only_left_and_right() {
    let mut m = Mat::new_1d(3, None).unwrap();
    m.fill(1.0f32.to_bits());
    let opt = NetOption::new();
    m.add_border(5, 6, 1, 2, BorderType::Constant, 0, &opt).unwrap();
    assert_eq!((m.dimensions(), m.width(), m.height()), (1, 6, 1));
    m.cut_border(5, 6, 1, 2, &opt).unwrap();
    assert_eq!((m.dimensions(), m.width(), m.height()), (1, 3, 1));
    assert_eq!(scalar(&m, 2, 0, 0), 1.0);
}

#[test]
fn add_then_cut_restores_the_tensor() {
    let opt = NetOption::new();
    for policy in [BorderType::Constant, BorderType::Replicate, BorderType::Reflect, BorderType::Transparent] {
        let src = ramp(5, 4, 3);
        let mut m = src.clone();
        m.add_border(2, 1, 3, 4, policy, 3.0f32.to_bits(), &opt).unwrap();
        assert_eq!((m.width(), m.height(), m.channels()), (12, 7, 3));
        m.cut_border(2, 1, 3, 4, &opt).unwrap();
        assert_eq!((m.width(), m.height(), m.channels()), (5, 4, 3));
        assert_eq!(m.data(), src.data());
    }
    let src = ramp(5, 4, 3);
    let mut m = src.clone();
    m.add_border_3d(2, 1, 3, 4, 1, 1, BorderType::Replicate, 0, &opt).unwrap();
    assert_eq!((m.width(), m.height(), m.channels()), (12, 7, 5));
    m.cut_border_3d(2, 1, 3, 4, 1, 1, &opt).unwrap();
    assert_eq!(m.data(), src.data());
}

#[test]
fn cut_border_crops() {
    let src = ramp(5, 4, 2);
    let mut dst = Mat::new();
    let opt = NetOption::new();
    copy_cut_border(&src, &mut dst, 1, 2, 2, 1, &opt).unwrap();
    assert_eq!((dst.width(), dst.height(), dst.channels()), (2, 1, 2));
    assert_eq!(scalar(&dst, 0, 0, 0), 12.0);
    assert_eq!(scalar(&dst, 1, 0, 0), 13.0);
    assert_eq!(scalar(&dst, 0, 0, 1), 112.0);
    assert_eq!(scalar(&dst, 1, 0, 1), 113.0);
}

#[test]
fn border_errors_leave_the_tensor() {
    let opt = NetOption::new();
    let src = ramp(5, 4, 2);
    let mut m = src.clone();
    assert_eq!(m.cut_border(2, 3, 0, 0, &opt).unwrap_err(), MatError::BorderTooLarge);
    assert_eq!(m.cut_border(0, 0, 3, 3, &opt).unwrap_err(), MatError::BorderTooLarge);
    assert_eq!(m.cut_border_3d(0, 0, 0, 0, 2, 1, &opt).unwrap_err(), MatError::BorderTooLarge);
    assert_eq!(
        m.add_border(0x8000_0000, 0, 0, 0, BorderType::Constant, 0, &opt).unwrap_err(),
        MatError::InvalidSize(Extent::Top)
    );
    assert_eq!(
        m.add_border(0, 0x8000_0000, 0, 0, BorderType::Constant, 0, &opt).unwrap_err(),
        MatError::InvalidSize(Extent::Bottom)
    );
    assert_eq!(
        m.add_border(0, 0, 0x8000_0000, 0, BorderType::Constant, 0, &opt).unwrap_err(),
        MatError::InvalidSize(Extent::Left)
    );
    assert_eq!(
        m.add_border(0, 0, 0, 0x8000_0000, BorderType::Constant, 0, &opt).unwrap_err(),
        MatError::InvalidSize(Extent::Right)
    );
    assert_eq!(
        m.add_border_3d(0, 0, 0, 0, 0x8000_0000, 0, BorderType::Constant, 0, &opt).unwrap_err(),
        MatError::InvalidSize(Extent::Front)
    );
    assert_eq!(
        m.add_border_3d(0, 0, 0, 0, 0, 0x8000_0000, BorderType::Constant, 0, &opt).unwrap_err(),
        MatError::InvalidSize(Extent::Behind)
    );
    assert_eq!(
        m.add_border(0, 0, 0x7fff_ffff, 0, BorderType::Constant, 0, &opt).unwrap_err(),
        MatError::SizeOverflow
    );
    assert_eq!(m.data(), src.data());
    assert_eq!((m.width(), m.height(), m.channels()), (5, 4, 2));
    // cutting everything leaves a tensor without elements
    m.cut_border(2, 2, 0, 0, &opt).unwrap();
    assert_eq!((m.dimensions(), m.width(), m.height(), m.channels()), (3, 5, 0, 2));
    assert!(m.data().is_empty());
}

#[test]
fn border_of_the_empty_tensor_is_empty() {
    let opt = NetOption::new();
    let mut m = Mat::new();
    m.add_border(1, 1, 1, 1, BorderType::Constant, 0, &opt).unwrap();
    assert_eq!(m.dimensions(), 0);
    m.cut_border(1, 1, 1, 1, &opt).unwrap();
    assert_eq!(m.dimensions(), 0);
}

#[test]
fn get_cpu_info() {
    let mut opt = NetOption::new();
    opt.set_num_threads(4);
    assert_eq!(4, opt.get_num_threads());
}

#[test]
fn option_defaults_and_switches() {
    let mut opt = NetOption::new();
    assert_eq!(opt.get_num_threads(), 1);
    assert!(!opt.get_vulkan_compute());
    opt.set_vulkan_compute(true);
    assert!(opt.get_vulkan_compute());
    assert_eq!(opt.get_num_threads(), 1);
    opt.set_num_threads(8);
    assert!(opt.get_vulkan_compute());
    let d = NetOption::default();
    assert_eq!(d.get_num_threads(), 1);
}

#[test]
fn allocator_blocks_are_zero() {
    let a = Allocator::new();
    let block = a.allocate(17);
    assert_eq!(block, vec![0u8; 17]);
    a.release(block);
}

#[test]
fn with_layout_makes_other_element_layouts() {
    // 16-bit scalars: 4 elements are 8 bytes, padded to 16: 8 elements
    let m = Mat::with_layout(3, 2, 2, 1, 2, 2, 1, None).unwrap();
    assert_eq!((m.dimensions(), m.width(), m.height(), m.depth(), m.channels()), (3, 2, 2, 1, 2));
    assert_eq!((m.element_size(), m.element_packing(), m.channel_step()), (2, 1, 8));
    assert_eq!(m.data().len(), 8 * 2 * 2);
    // four 32-bit scalars to an element
    let m = Mat::with_layout(3, 3, 1, 1, 2, 16, 4, None).unwrap();
    assert_eq!((m.element_size(), m.element_packing(), m.channel_step()), (16, 4, 3));
    assert_eq!(m.data().len(), 3 * 2 * 16);
    let m = Mat::with_layout(0, 0, 0, 0, 0, 0, 0, None).unwrap();
    assert_eq!(m.dimensions(), 0);
    assert!(m.data().is_empty());
    for (dims, w, h, d, c, es, ep) in [
        (5u32, 1u32, 1u32, 1u32, 1u32, 4u32, 1u32),
        (1, 2, 2, 1, 1, 4, 1),
        (2, 2, 2, 2, 1, 4, 1),
        (3, 2, 2, 2, 1, 4, 1),
        (2, 2, 2, 1, 2, 4, 1),
        (3, 2, 2, 1, 2, 0, 1),
        (3, 2, 2, 1, 2, 4, 0),
        (0, 1, 0, 0, 0, 0, 0),
        (0, 0, 0, 0, 0, 4, 1),
    ] {
        assert_eq!(
            Mat::with_layout(dims, w, h, d, c, es, ep, None).unwrap_err(),
            MatError::InvalidShape
        );
    }
    assert_eq!(
        Mat::with_layout(4, 1, 1, 0x8000_0000, 1, 4, 1, None).unwrap_err(),
        MatError::InvalidSize(Extent::Depth)
    );
    assert_eq!(
        Mat::with_layout(3, 0x7fff_ffff, 0x7fff_ffff, 1, 1, 4, 1, None).unwrap_err(),
        MatError::SizeOverflow
    );
}

#[test]
fn borders_keep_the_element_layout() {
    let mut src = Mat::with_layout(3, 2, 1, 1, 1, 2, 1, None).unwrap();
    src.store(&[1, 2, 3, 4, 0, 0, 0, 0, 0, 0, 0, 0, 0, 0, 0, 0]).unwrap();
    let opt = NetOption::new();
    let mut dst = Mat::new();
    copy_make_border(&src, &mut dst, 0, 0, 1, 1, BorderType::Constant, 0x0a0b0c0d, &opt).unwrap();
    assert_eq!((dst.width(), dst.element_size(), dst.channel_step()), (4, 2, 8));
    // the fill is the low bytes of the pattern, least significant first
    assert_eq!(&dst.data()[..8], &[0x0d, 0x0c, 1, 2, 3, 4, 0x0d, 0x0c]);
    assert_eq!(&dst.data()[8..], &[0u8; 8]);
}

#[test]
fn the_buffer_can_be_taken_back() {
    let data: Vec<u8> = (0..16u8).collect();
    let m = Mat::new_external_1d(4, data.clone(), None).unwrap();
    assert_eq!(m.into_data(), data);
    let a = Allocator::new();
    Mat::new_2d(3, 3, Some(&a)).unwrap().release();
    Mat::new_external_1d(4, data, None).unwrap().release();
}

#[test]
fn reflect_border_of_narrow_tensors() {
    let opt = NetOption::new();
    // one column mirrors onto itself
    let src = ramp(1, 2, 1);
    let mut dst = Mat::new();
    copy_make_border(&src, &mut dst, 1, 1, 2, 2, BorderType::Reflect, 0, &opt).unwrap();
    assert_eq!((dst.width(), dst.height()), (5, 4));
    let rows = [10.0, 0.0, 10.0, 0.0];
    for y in 0..4 {
        for x in 0..5 {
            assert_eq!(scalar(&dst, x, y, 0), rows[y as usize]);
        }
    }
    // two columns alternate
    let src = ramp(2, 1, 1);
    let mut dst = Mat::new();
    copy_make_border(&src, &mut dst, 0, 0, 3, 3, BorderType::Reflect, 0, &opt).unwrap();
    let expect = [1.0, 0.0, 1.0, 0.0, 1.0, 0.0, 1.0, 0.0];
    for x in 0..8 {
        assert_eq!(scalar(&dst, x, 0, 0), expect[x as usize]);
    }
}

#[test]
fn borders_of_a_tensor_without_elements() {
    let opt = NetOption::new();
    let src = Mat::new_2d(0, 3, None).unwrap();
    let mut dst = Mat::new();
    copy_make_border(&src, &mut dst, 0, 0, 1, 1, BorderType::Replicate, 0, &opt).unwrap();
    // there is nothing to replicate: the border is not filled
    assert_eq!((dst.dimensions(), dst.width(), dst.height()), (2, 2, 3));
    assert!(dst.data().iter().all(|b| *b == 0));
    copy_make_border(&src, &mut dst, 0, 0, 1, 1, BorderType::Constant, 1.0f32.to_bits(), &opt)
        .unwrap();
    assert_eq!(scalar(&dst, 1, 2, 0), 1.0);
}

#[test]
fn two_dimensions_take_four_margins() {
    let opt = NetOption::new();
    let mut m = Mat::new_2d(2, 2, None).unwrap();
    m.fill(3.0f32.to_bits());
    m.add_border_3d(1, 1, 1, 1, 4, 4, BorderType::Constant, 0, &opt).unwrap();
    // front and behind have no axis in two dimensions
    assert_eq!((m.dimensions(), m.width(), m.height(), m.depth(), m.channels()), (2, 4, 4, 1, 1));
    assert_eq!(scalar(&m, 0, 0, 0), 0.0);
    assert_eq!(scalar(&m, 1, 1, 0), 3.0);
    m.cut_border_3d(1, 1, 1, 1, 4, 4, &opt).unwrap();
    assert_eq!((m.dimensions(), m.width(), m.height()), (2, 2, 2));
}
