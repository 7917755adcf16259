use linecal::frac::Frac;
use linecal::point_handling::{PointCoords, PointTransform};
use linecal::GeomError;

fn point(x: i64, y: i64) -> PointCoords {
    PointCoords::from_ints(x, y)
}

#[test]
fn calibration_round_trip() {
    // T: alpha = 1/2, beta = 433/500 (0.866), dx = 10, dy = -5
    let t = PointTransform::new(
        Frac::new(1, 2).unwrap(),
        Frac::new(433, 500).unwrap(),
        Frac::from_int(10),
        Frac::from_int(-5),
    );
    let s1 = point(0, 0);
    let s2 = point(100, 50);
    let w1 = s1.apply_transform(&t).unwrap();
    let w2 = s2.apply_transform(&t).unwrap();
    let est = PointTransform::interpolate_from_point_pairs((s1, w1), (s2, w2)).unwrap();
    assert_eq!(est.alpha, t.alpha);
    assert_eq!(est.beta, t.beta);
    assert_eq!(est.dx, t.dx);
    assert_eq!(est.dy, t.dy);
}

#[test]
fn calibration_round_trip_integer_transform() {
    let t = PointTransform::new(
        Frac::from_int(2),
        Frac::from_int(-3),
        Frac::from_int(7),
        Frac::from_int(11),
    );
    let s1 = point(-4, 9);
    let s2 = point(13, -2);
    let w1 = s1.apply_transform(&t).unwrap();
    let w2 = s2.apply_transform(&t).unwrap();
    let est = PointTransform::interpolate_from_point_pairs((s1, w1), (s2, w2)).unwrap();
    assert_eq!(est.alpha, t.alpha);
    assert_eq!(est.beta, t.beta);
    assert_eq!(est.dx, t.dx);
    assert_eq!(est.dy, t.dy);
}

#[test]
fn degenerate_calibration_rejected() {
    // identical screen points make the system singular
    let s = point(42, 17);
    let w1 = point(0, 0);
    let w2 = point(5, 5);
    assert_eq!(
        PointTransform::interpolate_from_point_pairs((s, w1), (s, w2)),
        Err(GeomError::DegenerateCalibration)
    );
}

#[test]
fn distinct_screen_points_calibrate() {
    // distinct screen points never report the degenerate error
    let s1 = point(0, 0);
    let s2 = point(0, 1);
    let r = PointTransform::interpolate_from_point_pairs((s1, point(3, 4)), (s2, point(5, 6)));
    assert!(r != Err(GeomError::DegenerateCalibration));
    assert!(r.is_ok());
}

#[test]
fn identity_constructor_values() {
    let t = PointTransform::identity();
    assert_eq!(t.alpha, Frac::one());
    assert_eq!(t.beta, Frac::zero());
    assert_eq!(t.dx, Frac::zero());
    assert_eq!(t.dy, Frac::zero());
}
