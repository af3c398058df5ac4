use eye_detection::fit::EllipseCandidate;
use eye_detection::tuning::TuningState;

fn window() -> TuningState {
    TuningState::new(60 * 256, 120 * 256, 5, (50, 50), 10, 10 * 256, 30 * 256)
}

fn candidate(x: usize, y: usize, radius: u64) -> EllipseCandidate {
    EllipseCandidate { center_x: x, center_y: y, radius }
}

#[test]
fn new_keeps_the_seven_parameters() {
    let t = TuningState::new(1, 2, 3, (4, 5), 6, 7, 8);
    assert_eq!(t.low_threshold, 1);
    assert_eq!(t.high_threshold, 2);
    assert_eq!(t.size_filter, 3);
    assert_eq!(t.eye_pos, (4, 5));
    assert_eq!(t.eye_pos_threshold, 6);
    assert_eq!(t.eye_min_radius, 7);
    assert_eq!(t.eye_max_radius, 8);
}

#[test]
fn initial_parameters_follow_the_resolution() {
    let t = TuningState::initial((640, 480));
    assert_eq!(t.low_threshold, 15360);
    assert_eq!(t.high_threshold, 30720);
    assert_eq!(t.size_filter, 0);
    assert_eq!(t.eye_pos, (320, 240));
    assert_eq!(t.eye_pos_threshold, 96);
    assert_eq!(t.eye_min_radius, 17554);
    assert_eq!(t.eye_max_radius, 24576);
    let t = TuningState::initial((100, 301));
    assert_eq!(t.eye_pos, (50, 150));
    assert_eq!(t.eye_pos_threshold, 20);
    assert_eq!(t.eye_min_radius, 3657);
    assert_eq!(t.eye_max_radius, 5120);
}

#[test]
fn initial_parameters_of_extreme_resolutions() {
    let t = TuningState::initial((0, 0));
    assert_eq!(t.eye_pos, (0, 0));
    assert_eq!(t.eye_pos_threshold, 0);
    assert_eq!(t.eye_min_radius, 0);
    assert_eq!(t.eye_max_radius, 0);
    let t = TuningState::initial((u32::MAX, u32::MAX));
    assert_eq!(t.eye_pos, (2147483647, 2147483647));
    assert_eq!(t.eye_pos_threshold, 858993459);
    assert_eq!(t.eye_min_radius, 4294967295u64 * 256 / 7);
    assert_eq!(t.eye_max_radius, 4294967295u64 * 256 / 5);
}

#[test]
fn radius_bounds_are_exclusive() {
    let t = window();
    assert!(t.accepts(&candidate(50, 50, 20 * 256)));
    assert!(!t.accepts(&candidate(50, 50, 10 * 256)));
    assert!(t.accepts(&candidate(50, 50, 10 * 256 + 1)));
    assert!(!t.accepts(&candidate(50, 50, 30 * 256)));
    assert!(t.accepts(&candidate(50, 50, 30 * 256 - 1)));
    assert!(!t.accepts(&candidate(50, 50, 0)));
}

#[test]
fn position_bounds_are_exclusive() {
    let t = window();
    assert!(t.accepts(&candidate(41, 50, 5120)));
    assert!(!t.accepts(&candidate(40, 50, 5120)));
    assert!(t.accepts(&candidate(59, 50, 5120)));
    assert!(!t.accepts(&candidate(60, 50, 5120)));
    assert!(t.accepts(&candidate(50, 41, 5120)));
    assert!(!t.accepts(&candidate(50, 40, 5120)));
    assert!(t.accepts(&candidate(50, 59, 5120)));
    assert!(!t.accepts(&candidate(50, 60, 5120)));
}

#[test]
fn window_near_the_border_does_not_wrap() {
    let t = TuningState::new(0, 0, 0, (3, 3), 10, 0, 100);
    assert!(t.accepts(&candidate(0, 0, 50)));
    assert!(t.accepts(&candidate(12, 12, 50)));
    assert!(!t.accepts(&candidate(13, 0, 50)));
    let t = TuningState::new(0, 0, 0, (u32::MAX, u32::MAX), u32::MAX, 0, u64::MAX);
    assert!(t.accepts(&candidate(u32::MAX as usize, u32::MAX as usize, 1)));
    assert!(!t.accepts(&candidate(0, u32::MAX as usize, 1)));
    assert!(t.accepts(&candidate(1, 1, 1)));
    assert!(!t.accepts(&candidate(usize::MAX, 1, 1)));
}

#[test]
fn empty_window_accepts_nothing() {
    let t = TuningState::new(0, 0, 0, (50, 50), 0, 0, u64::MAX);
    assert!(!t.accepts(&candidate(50, 50, 5)));
    let t = TuningState::new(0, 0, 0, (50, 50), 10, 300, 300);
    assert!(!t.accepts(&candidate(50, 50, 300)));
    let t = TuningState::new(0, 0, 0, (50, 50), 10, 400, 300);
    assert!(!t.accepts(&candidate(50, 50, 350)));
}

#[test]
fn filter_keeps_order_and_drops_the_rest() {
    let t = window();
    let all = vec![
        candidate(50, 50, 5120),
        candidate(10, 10, 5120),
        candidate(55, 45, 3000),
        candidate(50, 50, 256),
        candidate(45, 55, 7000),
        candidate(50, 50, 5120),
    ];
    let kept = t.filter_candidates(&all);
    assert_eq!(
        kept,
        vec![
            candidate(50, 50, 5120),
            candidate(55, 45, 3000),
            candidate(45, 55, 7000),
            candidate(50, 50, 5120),
        ]
    );
    assert!(t.filter_candidates(&Vec::new()).is_empty());
}
