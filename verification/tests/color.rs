use eye_detection::color::{pixel_count, RgbFrame, RgbaFrame};
use eye_detection::frame::GrayMap;
use eye_detection::geometry::Point;

#[test]
fn rgb_frame_needs_three_samples_per_pixel() {
    assert!(RgbFrame::new(2, 2, vec![0; 12]).is_some());
    assert!(RgbFrame::new(2, 2, vec![0; 11]).is_none());
    assert!(RgbFrame::new(2, 2, vec![0; 13]).is_none());
    assert!(RgbFrame::new(2, 2, vec![0; 4]).is_none());
    assert!(RgbFrame::new(0, 5, Vec::new()).is_some());
    assert!(RgbFrame::new(u32::MAX, u32::MAX, Vec::new()).is_none());
}

#[test]
fn pixel_count_is_the_product() {
    assert_eq!(pixel_count(640, 480), Some(307200));
    assert_eq!(pixel_count(0, 480), Some(0));
    assert_eq!(pixel_count(u32::MAX, u32::MAX), None);
    assert_eq!(pixel_count(1 << 31, 1 << 31), None);
}

#[test]
fn pixel_count_leaves_room_for_four_samples_in_one_allocation() {
    // four samples for each pixel may take no more bytes than an allocation holds
    let top = isize::MAX as u128;
    for &(w, h) in &[
        (1u32 << 31, 1u32 << 30),
        (1 << 31, (1 << 30) - 1),
        (1 << 16, 1 << 16),
        (u32::MAX, 1),
        (u32::MAX, 0),
        (0, u32::MAX),
        (3_000_000_000, 768_614_336),
        (3_000_000_000, 768_614_337),
    ] {
        let bytes = 4 * w as u128 * h as u128;
        let row = 4 * w as u128;
        let expected = if row <= usize::MAX as u128 && bytes <= top {
            Some(w as usize * h as usize)
        } else {
            None
        };
        assert_eq!(pixel_count(w, h), expected, "{} x {}", w, h);
    }
}

#[test]
fn frames_without_rows_are_well_formed() {
    let f = RgbFrame::new(1 << 20, 0, Vec::new()).unwrap();
    assert!(f.to_gray().into_raw().is_empty());
    assert!(f.to_rgba().into_raw().is_empty());
    let g = GrayMap::new(1 << 20, 0, Vec::new()).unwrap();
    assert!(RgbaFrame::from_gray(&g).unwrap().into_raw().is_empty());
}

#[test]
fn rgb_frame_keeps_its_data() {
    let f = RgbFrame::new(2, 1, vec![1, 2, 3, 4, 5, 6]).unwrap();
    assert_eq!(f.width(), 2);
    assert_eq!(f.height(), 1);
    assert_eq!(f.as_raw(), &vec![1, 2, 3, 4, 5, 6]);
}

#[test]
fn luminance_of_the_primaries() {
    let f = RgbFrame::new(
        3,
        2,
        vec![255, 255, 255, 255, 0, 0, 0, 255, 0, 0, 0, 255, 10, 20, 30, 0, 0, 0],
    ).unwrap();
    let g = f.to_gray();
    assert_eq!(g.width(), 3);
    assert_eq!(g.height(), 2);
    assert_eq!(g.pixels(), &vec![255, 54, 182, 18, 18, 0]);
}

#[test]
fn luminance_of_gray_is_the_gray_value() {
    let mut data: Vec<u8> = Vec::new();
    for v in 0..=255u8 {
        data.extend_from_slice(&[v, v, v]);
    }
    let g = RgbFrame::new(16, 16, data).unwrap().to_gray();
    let expected: Vec<u8> = (0..=255u8).collect();
    assert_eq!(g.pixels(), &expected);
}

#[test]
fn luminance_rounds_down() {
    // 2126 * 3 + 7152 * 1 + 722 * 2 = 14974
    let g = RgbFrame::new(1, 1, vec![3, 1, 2]).unwrap().to_gray();
    assert_eq!(g.into_raw(), vec![1]);
    // 2126 * 1 + 7152 * 1 + 722 * 0 = 9278
    let g = RgbFrame::new(1, 1, vec![1, 1, 0]).unwrap().to_gray();
    assert_eq!(g.into_raw(), vec![0]);
}

#[test]
fn rgb_gets_an_opaque_alpha() {
    let f = RgbFrame::new(2, 1, vec![1, 2, 3, 4, 5, 6]).unwrap();
    let rgba = f.to_rgba();
    assert_eq!(rgba.width(), 2);
    assert_eq!(rgba.height(), 1);
    assert_eq!(rgba.as_raw(), &vec![1, 2, 3, 255, 4, 5, 6, 255]);
}

#[test]
fn gray_is_repeated_in_three_channels() {
    let g = GrayMap::new(1, 2, vec![7, 9]).unwrap();
    let rgba = RgbaFrame::from_gray(&g).unwrap();
    assert_eq!(rgba.width(), 1);
    assert_eq!(rgba.height(), 2);
    assert_eq!(rgba.into_raw(), vec![7, 7, 7, 255, 9, 9, 9, 255]);
}

#[test]
fn empty_frames_convert_to_empty_frames() {
    let f = RgbFrame::new(0, 0, Vec::new()).unwrap();
    assert!(f.to_gray().into_raw().is_empty());
    assert!(f.to_rgba().into_raw().is_empty());
    let g = GrayMap::new(0, 3, Vec::new()).unwrap();
    assert!(RgbaFrame::from_gray(&g).unwrap().into_raw().is_empty());
}

#[test]
fn put_pixel_writes_four_samples() {
    let g = GrayMap::new(3, 2, vec![1, 2, 3, 4, 5, 6]).unwrap();
    let mut rgba = RgbaFrame::from_gray(&g).unwrap();
    rgba.put_pixel(Point { x: 2, y: 1 }, [0, 255, 0, 255]);
    rgba.put_pixel(Point { x: 0, y: 0 }, [9, 8, 7, 6]);
    assert_eq!(
        rgba.into_raw(),
        vec![
            9, 8, 7, 6, 2, 2, 2, 255, 3, 3, 3, 255, 4, 4, 4, 255, 5, 5, 5, 255, 0, 255, 0, 255,
        ]
    );
}

#[test]
fn gray_map_reads_by_position() {
    let g = GrayMap::new(3, 2, vec![1, 2, 3, 4, 5, 6]).unwrap();
    assert_eq!(g.get(Point { x: 0, y: 0 }), 1);
    assert_eq!(g.get(Point { x: 2, y: 0 }), 3);
    assert_eq!(g.get(Point { x: 0, y: 1 }), 4);
    assert_eq!(g.get(Point { x: 2, y: 1 }), 6);
}
