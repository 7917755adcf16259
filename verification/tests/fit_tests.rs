use linecal::frac::Frac;
use linecal::point_handling::{PointCoords, PointTransform, UniquePointBuf, Transformable};
use linecal::fit::RegressionLineSegment;
use linecal::segment::ScreenLineSegment;
use linecal::GeomError;

fn point(x: i64, y: i64) -> PointCoords {
    PointCoords::from_ints(x, y)
}

fn buf_of(points: &[PointCoords]) -> UniquePointBuf {
    let mut buf = UniquePointBuf::new();
    for p in points {
        buf.insert(*p);
    }
    buf
}

#[test]
fn exact_line_fit_collinear() {
    // three collinear points give slope 2, intercept 0, exactly
    let buf = buf_of(&[point(0, 0), point(1, 2), point(2, 4)]);
    let (slope, intercept) = RegressionLineSegment::get_regression_line(&buf).unwrap();
    assert_eq!(slope, Frac::from_int(2));
    assert_eq!(intercept, Frac::zero());
}

#[test]
fn fit_noncollinear_exact_values() {
    // {(0,0),(1,1),(2,4)}: slope = 2, intercept = -1/3
    let buf = buf_of(&[point(0, 0), point(1, 1), point(2, 4)]);
    let (slope, intercept) = RegressionLineSegment::get_regression_line(&buf).unwrap();
    assert_eq!(slope, Frac::from_int(2));
    assert_eq!(intercept, Frac::new(-1, 3).unwrap());
}

#[test]
fn fit_insufficient_points() {
    let buf = buf_of(&[point(5, 5)]);
    assert_eq!(
        RegressionLineSegment::get_regression_line(&buf),
        Err(GeomError::InsufficientPoints)
    );
    let empty = UniquePointBuf::new();
    assert_eq!(
        RegressionLineSegment::get_regression_line(&empty),
        Err(GeomError::InsufficientPoints)
    );
}

#[test]
fn fit_degenerate_vertical() {
    // all points share one x: zero variance in the predictor
    let buf = buf_of(&[point(3, 0), point(3, 7), point(3, 9)]);
    assert_eq!(
        RegressionLineSegment::get_regression_line(&buf),
        Err(GeomError::DegenerateFit)
    );
}

#[test]
fn fit_overflow_surfaces() {
    // squaring these x coordinates leaves the i64 fraction range
    let buf = buf_of(&[point(3037000500, 0), point(3037000501, 1)]);
    assert_eq!(
        RegressionLineSegment::get_regression_line(&buf),
        Err(GeomError::Overflow)
    );
}

#[test]
fn identity_transform_is_noop() {
    // re-fitting after the identity transform reproduces the fit exactly
    let buf = buf_of(&[point(0, 0), point(1, 1), point(2, 4), point(5, 3)]);
    let (slope, intercept) = RegressionLineSegment::get_regression_line(&buf).unwrap();
    let mut line = RegressionLineSegment::new(buf).unwrap();
    line.transform_line(&PointTransform::identity()).unwrap();
    assert_eq!(line.transformed_slope, slope);
    assert_eq!(line.transformed_intercept, intercept);
}

#[test]
fn identity_transform_keeps_points() {
    let buf = buf_of(&[point(4, 9), point(-3, 2), point(0, 0)]);
    let mapped = buf.transform(&PointTransform::identity()).unwrap();
    assert_eq!(mapped.len(), 3);
    assert!(mapped.contains(&point(4, 9)));
    assert!(mapped.contains(&point(-3, 2)));
    assert!(mapped.contains(&point(0, 0)));
}

#[test]
fn refit_is_not_naive_parameter_transform() {
    // rotation by 90 degrees: alpha = 0, beta = 1
    let rot = PointTransform::new(Frac::zero(), Frac::one(), Frac::zero(), Frac::zero());
    // a non-collinear set whose fit has slope 2 (neither horizontal nor vertical)
    let buf = buf_of(&[point(0, 0), point(1, 1), point(2, 4)]);
    let mut line = RegressionLineSegment::new(buf).unwrap();
    assert_eq!(line.transformed_slope, Frac::from_int(2));
    line.transform_line(&rot).unwrap();
    // recomputed from the re-projected points: -6/13
    assert_eq!(line.transformed_slope, Frac::new(-6, 13).unwrap());
    // the naive parameter formula (alpha*m + beta)/(alpha - beta*m) = -1/m
    // would instead predict -1/2; the engine must not produce it
    let naive = Frac::new(-1, 2).unwrap();
    assert_ne!(line.transformed_slope, naive);
}

#[test]
fn segment_extremes_and_screen_slope() {
    let buf = buf_of(&[point(2, 5), point(0, 1), point(4, 9)]);
    let seg = ScreenLineSegment::new_from_buf(buf).unwrap();
    assert_eq!(seg.leftmost_pt, point(0, 1));
    assert_eq!(seg.rightmost_pt, point(4, 9));
    // (1 - 9) / (0 - 4) = 2
    assert_eq!(seg.screen_space_slope().unwrap(), Frac::from_int(2));
    // 1 - 2*0 = 1
    assert_eq!(seg.screen_space_intercept().unwrap(), Frac::from_int(1));
}

#[test]
fn segment_vertical_points_degenerate() {
    // a vertical point set has zero x variance: the fit itself surfaces it
    let buf = buf_of(&[point(3, 0), point(3, 7)]);
    assert_eq!(
        ScreenLineSegment::new_from_buf(buf).map(|_| ()),
        Err(GeomError::DegenerateFit)
    );
}

#[test]
fn point_arithmetic_exact() {
    let a = point(3, 5);
    let b = point(1, 9);
    assert_eq!(a.plus(b).unwrap(), point(4, 14));
    assert_eq!(a.minus(b).unwrap(), point(2, -4));
}
