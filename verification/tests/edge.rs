use eye_detection::edge::EdgeDetector;
use eye_detection::gradient::{gradient, squared_magnitude};

const LOW: u64 = 60 * 256;
const HIGH: u64 = 120 * 256;

fn repeat(row: &[u8], times: usize) -> Vec<u8> {
    let mut out: Vec<u8> = Vec::new();
    for _ in 0..times {
        out.extend_from_slice(row);
    }
    out
}

fn rows(rows: &[&[u8]]) -> Vec<u8> {
    rows.iter().flat_map(|r| r.iter().copied()).collect()
}

#[test]
fn detector_keeps_its_resolution() {
    assert_eq!(EdgeDetector::new((640, 480)).get_resolution(), (640, 480));
}

#[test]
fn uniform_image_with_zero_thresholds_is_all_edges() {
    for &value in &[0u8, 1, 127, 255] {
        let out = EdgeDetector::new((7, 5)).execute_edge_detection(vec![value; 35], 0, 0);
        assert_eq!(out, vec![255u8; 35]);
    }
}

#[test]
fn uniform_image_has_no_edges_above_a_threshold() {
    let out = EdgeDetector::new((7, 5)).execute_edge_detection(vec![90; 35], LOW, HIGH);
    assert_eq!(out, vec![0u8; 35]);
    let out = EdgeDetector::new((7, 5)).execute_edge_detection(vec![90; 35], 1, 1);
    assert_eq!(out, vec![0u8; 35]);
    let out = EdgeDetector::new((7, 5)).execute_edge_detection(vec![90; 35], 0, 1);
    assert_eq!(out, vec![0u8; 35]);
    let out = EdgeDetector::new((7, 5)).execute_edge_detection(vec![90; 35], 1, 0);
    assert_eq!(out, vec![255u8; 35]);
}

#[test]
fn empty_image_gives_an_empty_map() {
    assert!(EdgeDetector::new((0, 0)).execute_edge_detection(Vec::new(), LOW, HIGH).is_empty());
    assert!(EdgeDetector::new((0, 9)).execute_edge_detection(Vec::new(), 0, 0).is_empty());
    assert!(EdgeDetector::new((9, 0)).execute_edge_detection(Vec::new(), 0, 0).is_empty());
}

#[test]
fn single_pixel_image() {
    assert_eq!(EdgeDetector::new((1, 1)).execute_edge_detection(vec![200], 0, 0), vec![255]);
    assert_eq!(EdgeDetector::new((1, 1)).execute_edge_detection(vec![200], LOW, HIGH), vec![0]);
}

#[test]
fn sobel_responses_of_a_step() {
    let gray = repeat(&[0, 0, 0, 255, 255, 255], 3);
    assert_eq!(gradient(&gray, 6, 3, 0, 1), (0, 0));
    assert_eq!(gradient(&gray, 6, 3, 1, 1), (0, 0));
    assert_eq!(gradient(&gray, 6, 3, 2, 1), (1020, 0));
    assert_eq!(gradient(&gray, 6, 3, 3, 1), (1020, 0));
    assert_eq!(gradient(&gray, 6, 3, 4, 1), (0, 0));
    assert_eq!(gradient(&gray, 6, 3, 2, 0), (1020, 0));
    assert_eq!(squared_magnitude(&gray, 6, 3, 2, 2), 1040400);
}

#[test]
fn sobel_responses_of_a_corner() {
    let gray = rows(&[&[10, 20, 30], &[40, 50, 60], &[70, 80, 100]]);
    // gx = (30 + 2 * 60 + 100) - (10 + 2 * 40 + 70), gy = (70 + 2 * 80 + 100) - (10 + 2 * 20 + 30)
    assert_eq!(gradient(&gray, 3, 3, 1, 1), (90, 250));
    assert_eq!(squared_magnitude(&gray, 3, 3, 1, 1), 90 * 90 + 250 * 250);
    // the border repeats the nearest pixel
    // gx = (20 + 2 * 20 + 50) - (10 + 2 * 10 + 40), gy = (40 + 2 * 40 + 50) - (10 + 2 * 10 + 20)
    assert_eq!(gradient(&gray, 3, 3, 0, 0), (40, 120));
}

#[test]
fn vertical_step_gives_two_columns() {
    let gray = repeat(&[0, 0, 0, 255, 255, 255], 3);
    let out = EdgeDetector::new((6, 3)).execute_edge_detection(gray.clone(), LOW, HIGH);
    assert_eq!(out, repeat(&[0, 0, 255, 255, 0, 0], 3));
    let out = EdgeDetector::new((6, 3)).execute_edge_detection(gray, 0, 0);
    assert_eq!(out, repeat(&[255, 0, 255, 255, 0, 255], 3));
}

#[test]
fn horizontal_step_gives_two_rows() {
    let gray = rows(&[&[9, 9, 9], &[9, 9, 9], &[200, 200, 200], &[200, 200, 200]]);
    let out = EdgeDetector::new((3, 4)).execute_edge_detection(gray, LOW, HIGH);
    assert_eq!(out, rows(&[&[0, 0, 0], &[255, 255, 255], &[255, 255, 255], &[0, 0, 0]]));
}

#[test]
fn thresholds_are_inclusive() {
    // A step of 30 gray levels has a gradient of exactly 120.
    let gray = repeat(&[0, 0, 0, 30, 30, 30], 3);
    let edge = repeat(&[0, 0, 255, 255, 0, 0], 3);
    let none = vec![0u8; 18];
    let det = EdgeDetector::new((6, 3));
    assert_eq!(det.execute_edge_detection(gray.clone(), 0, 120 * 256), edge);
    assert_eq!(det.execute_edge_detection(gray.clone(), 0, 120 * 256 + 1), none);
    assert_eq!(det.execute_edge_detection(gray.clone(), 120 * 256, 120 * 256), edge);
    assert_eq!(det.execute_edge_detection(gray.clone(), 120 * 256 + 1, 120 * 256 + 1), none);
    assert_eq!(det.execute_edge_detection(gray, 1, u64::MAX), none);
}

#[test]
fn weak_pixels_need_a_strong_one() {
    // Left: a step of 20 levels (gradient 80, weak). Right: a step of 20 levels
    // that turns into one of 40 levels (gradient up to 160, strong) lower down.
    let gray = rows(&[
        &[0, 0, 20, 20, 20, 20, 20, 20, 40, 40],
        &[0, 0, 20, 20, 20, 20, 20, 20, 40, 40],
        &[0, 0, 20, 20, 20, 20, 20, 20, 40, 40],
        &[0, 0, 20, 20, 20, 20, 20, 20, 60, 60],
        &[0, 0, 20, 20, 20, 20, 20, 20, 60, 60],
        &[0, 0, 20, 20, 20, 20, 20, 20, 60, 60],
    ]);
    let det = EdgeDetector::new((10, 6));
    let out = det.execute_edge_detection(gray.clone(), LOW, HIGH);
    for y in 0..6 {
        // the weak step on the left is not connected to anything strong
        assert_eq!(&out[y * 10..y * 10 + 5], &[0, 0, 0, 0, 0]);
    }
    // the strong part of the right step is found
    assert_eq!(out[5 * 10 + 7], 255);
    assert_eq!(out[5 * 10 + 8], 255);
    // and the weak part above it is kept, being connected to it
    assert_eq!(out[0 * 10 + 7], 255);
    assert_eq!(out[0 * 10 + 8], 255);
    // with a low threshold above the weak gradient the weak part goes
    let out = det.execute_edge_detection(gray.clone(), 100 * 256, HIGH);
    assert_eq!(out[0 * 10 + 7], 0);
    assert_eq!(out[0 * 10 + 8], 0);
    assert_eq!(out[5 * 10 + 7], 255);
    // with both thresholds low everything on both steps is strong
    let out = det.execute_edge_detection(gray, LOW, LOW);
    assert_eq!(out[0 * 10 + 1], 255);
    assert_eq!(out[0 * 10 + 2], 255);
    assert_eq!(out[0 * 10 + 7], 255);
}

#[test]
fn low_above_high_shows_the_strong_pixels() {
    let gray = repeat(&[0, 0, 0, 255, 255, 255], 3);
    let det = EdgeDetector::new((6, 3));
    let out = det.execute_edge_detection(gray.clone(), u64::MAX, HIGH);
    assert_eq!(out, repeat(&[0, 0, 255, 255, 0, 0], 3));
    let out = det.execute_edge_detection(gray.clone(), HIGH, LOW);
    assert_eq!(out, repeat(&[0, 0, 255, 255, 0, 0], 3));
    let out = det.execute_edge_detection(gray, u64::MAX, u64::MAX);
    assert_eq!(out, vec![0u8; 18]);
}

#[test]
fn output_has_the_length_of_the_input_and_two_values() {
    let mut gray: Vec<u8> = Vec::new();
    let mut state: u32 = 12345;
    for _ in 0..(37 * 23) {
        state = state.wrapping_mul(1103515245).wrapping_add(12345);
        gray.push((state >> 16) as u8);
    }
    let out = EdgeDetector::new((37, 23)).execute_edge_detection(gray.clone(), LOW, HIGH);
    assert_eq!(out.len(), gray.len());
    assert!(out.iter().all(|&v| v == 0 || v == 255));
    let again = EdgeDetector::new((37, 23)).execute_edge_detection(gray, LOW, HIGH);
    assert_eq!(out, again);
}

#[test]
fn raising_the_high_threshold_never_adds_edges() {
    let mut gray: Vec<u8> = Vec::new();
    let mut state: u32 = 99;
    for _ in 0..(20 * 20) {
        state = state.wrapping_mul(1103515245).wrapping_add(12345);
        gray.push((state >> 16) as u8);
    }
    let det = EdgeDetector::new((20, 20));
    let mut previous = det.execute_edge_detection(gray.clone(), 0, 0);
    for high in [50u64, 100, 200, 400, 800, 1600] {
        let out = det.execute_edge_detection(gray.clone(), 40 * 256, high * 256);
        for (a, b) in out.iter().zip(previous.iter()) {
            assert!(*a == 0 || *b == 255);
        }
        previous = out;
    }
}
