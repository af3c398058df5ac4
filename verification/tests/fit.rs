use eye_detection::contours::Contour;
use eye_detection::fit::{fit_circle, EllipseCandidate, EllipseFitter};
use eye_detection::geometry::Point;

fn contour(points: &[(u32, u32)]) -> Contour {
    Contour { points: points.iter().map(|&(x, y)| Point { x, y }).collect() }
}

fn circle(cx: f64, cy: f64, radius: f64, samples: usize) -> Contour {
    let mut points: Vec<Point> = Vec::new();
    for k in 0..samples {
        let angle = 2.0 * std::f64::consts::PI * (k as f64) / (samples as f64);
        let x = (cx + radius * angle.cos()).round() as u32;
        let y = (cy + radius * angle.sin()).round() as u32;
        points.push(Point { x, y });
    }
    Contour { points }
}

#[test]
fn no_contours_no_candidates() {
    assert_eq!(EllipseFitter.execute_ellipse_fit(&Vec::new()), None);
}

#[test]
fn one_candidate_per_contour() {
    let contours = vec![
        contour(&[(0, 0)]),
        contour(&[(0, 0), (2, 0), (2, 2), (0, 2)]),
        contour(&[]),
        contour(&[(5, 5), (6, 5)]),
        contour(&[(0, 0), (1, 0), (2, 0)]),
    ];
    let fitted = EllipseFitter.execute_ellipse_fit(&contours).unwrap();
    assert_eq!(fitted.len(), contours.len());
    assert_eq!(fitted[0], EllipseCandidate { center_x: 0, center_y: 0, radius: 0 });
    assert_eq!(fitted[1], EllipseCandidate { center_x: 1, center_y: 1, radius: 362 });
    assert_eq!(fitted[2], EllipseCandidate { center_x: 0, center_y: 0, radius: 0 });
    assert_eq!(fitted[3], EllipseCandidate { center_x: 6, center_y: 5, radius: 128 });
    assert_eq!(fitted[4], EllipseCandidate { center_x: 1, center_y: 0, radius: 170 });
}

#[test]
fn single_point_has_radius_zero() {
    let e = fit_circle(&vec![Point { x: 17, y: 4 }]);
    assert_eq!(e, EllipseCandidate { center_x: 17, center_y: 4, radius: 0 });
}

#[test]
fn empty_contour_gives_the_zero_circle() {
    let e = fit_circle(&Vec::new());
    assert_eq!(e, EllipseCandidate { center_x: 0, center_y: 0, radius: 0 });
}

#[test]
fn square_has_the_radius_of_its_corners() {
    let e = fit_circle(&vec![
        Point { x: 0, y: 0 },
        Point { x: 2, y: 0 },
        Point { x: 2, y: 2 },
        Point { x: 0, y: 2 },
    ]);
    assert_eq!(e, EllipseCandidate { center_x: 1, center_y: 1, radius: 362 });
}

#[test]
fn centre_rounds_a_half_upwards() {
    let e = fit_circle(&vec![Point { x: 0, y: 3 }, Point { x: 1, y: 4 }]);
    assert_eq!(e.center_x, 1);
    assert_eq!(e.center_y, 4);
    let e = fit_circle(&vec![Point { x: 0, y: 0 }, Point { x: 0, y: 0 }, Point { x: 1, y: 1 }]);
    assert_eq!(e.center_x, 0);
    assert_eq!(e.center_y, 0);
    let e = fit_circle(&vec![Point { x: 0, y: 0 }, Point { x: 1, y: 1 }, Point { x: 1, y: 1 }]);
    assert_eq!(e.center_x, 1);
    assert_eq!(e.center_y, 1);
}

#[test]
fn collinear_points_do_not_fail() {
    let e = fit_circle(&vec![Point { x: 0, y: 0 }, Point { x: 1, y: 0 }, Point { x: 2, y: 0 }]);
    assert_eq!(e, EllipseCandidate { center_x: 1, center_y: 0, radius: 170 });
}

#[test]
fn far_corners_do_not_overflow() {
    let m = u32::MAX;
    let e = fit_circle(&vec![Point { x: 0, y: 0 }, Point { x: m, y: m }]);
    assert_eq!(e.center_x, 2147483648);
    assert_eq!(e.center_y, 2147483648);
    // The two distances are 2^31 sqrt(2) and (2^31 - 1) sqrt(2) pixels.
    assert_eq!(e.radius, (777472127993 + 777472127631) / 2);
}

#[test]
fn synthetic_circle_is_recovered() {
    let c = circle(50.0, 50.0, 20.0, 64);
    let fitted = EllipseFitter.execute_ellipse_fit(&vec![c]).unwrap();
    assert_eq!(fitted.len(), 1);
    let e = fitted[0];
    let radius = e.radius as f64 / 256.0;
    assert!((radius - 20.0).abs() < 1.0);
    assert!((e.center_x as f64 - 50.0).abs() < 1.0);
    assert!((e.center_y as f64 - 50.0).abs() < 1.0);
}

#[test]
fn circles_of_other_sizes_are_recovered() {
    for &(cx, cy, r) in &[(100.0, 80.0, 5.0), (300.0, 300.0, 64.0), (1000.0, 500.0, 250.0)] {
        let e = fit_circle(&circle(cx, cy, r, 360).points);
        assert!((e.radius as f64 / 256.0 - r).abs() < 1.0);
        assert!((e.center_x as f64 - cx).abs() < 1.0);
        assert!((e.center_y as f64 - cy).abs() < 1.0);
    }
}
