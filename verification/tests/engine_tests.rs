use linecal::frac::Frac;
use linecal::point_handling::{PointCoords, RGBColor, UniquePointBuf};
use linecal::buffer::BoundedPointBuffer;
use linecal::engine::{Engine, PointGatheringState};
use linecal::GeomError;

fn point(x: i64, y: i64) -> PointCoords {
    PointCoords::from_ints(x, y)
}

#[test]
fn idempotent_insertion() {
    // inserting the same point twice leaves the cardinality unchanged
    let mut buf = UniquePointBuf::new();
    assert!(buf.insert(point(3, 4)));
    assert_eq!(buf.len(), 1);
    assert!(!buf.insert(point(3, 4)));
    assert_eq!(buf.len(), 1);
    assert!(buf.insert(point(3, 5)));
    assert_eq!(buf.len(), 2);
}

#[test]
fn bounded_buffer_capacity() {
    // the two-slot buffer rejects a third push; length never exceeds 2
    let mut buf = BoundedPointBuffer::new(2);
    assert_eq!(buf.capacity(), 2);
    assert!(buf.push_back(point(1, 1)));
    assert!(buf.push_back(point(2, 2)));
    assert!(!buf.push_back(point(3, 3)));
    assert_eq!(buf.len(), 2);
    assert_eq!(buf.get(0), Some(point(1, 1)));
    assert_eq!(buf.get(1), Some(point(2, 2)));
    assert_eq!(buf.get(2), None);
    buf.clear();
    assert_eq!(buf.len(), 0);
    assert!(buf.push_back(point(9, 9)));
    assert_eq!(buf.get(0), Some(point(9, 9)));
}

#[test]
fn engine_full_cycle() {
    let mut engine = Engine::new();
    assert!(engine.gathering_state == PointGatheringState::Normal);

    // gather three collinear points and commit them as a line
    assert!(engine.push_to_buffer(point(0, 0)));
    assert!(engine.push_to_buffer(point(1, 2)));
    assert!(engine.push_to_buffer(point(2, 4)));
    assert!(!engine.push_to_buffer(point(2, 4)));
    engine.process_points_buffer().unwrap();
    assert_eq!(engine.regression_lines.len(), 1);
    assert_eq!(
        engine.regression_lines[0].transformed_line_equation(),
        "y = 2.000x + 0.000"
    );

    // export payloads carry the logical file name and the raw points
    let requests = engine.export_requests();
    assert_eq!(requests.len(), 1);
    assert_eq!(requests[0].file_name, "line_0.csv");
    assert_eq!(requests[0].points.len(), 3);

    // calibrate from two distinct screen points and exact world images
    engine.enter_measurement();
    assert!(engine.gathering_state == PointGatheringState::Measurement);
    assert!(engine.push_to_buffer(point(0, 0)));
    assert!(engine.push_to_buffer(point(100, 50)));
    assert!(!engine.push_to_buffer(point(7, 7)));
    let t = linecal::point_handling::PointTransform::new(
        Frac::new(1, 2).unwrap(),
        Frac::new(433, 500).unwrap(),
        Frac::from_int(10),
        Frac::from_int(-5),
    );
    let w1 = point(0, 0).apply_transform(&t).unwrap();
    let w2 = point(100, 50).apply_transform(&t).unwrap();
    engine.calibrate(w1, w2).unwrap();
    assert!(engine.gathering_state == PointGatheringState::Normal);
    assert_eq!(engine.current_transform.alpha, t.alpha);
    assert_eq!(engine.current_transform.beta, t.beta);
    assert_eq!(engine.current_transform.dx, t.dx);
    assert_eq!(engine.current_transform.dy, t.dy);

    // every line re-fits against the new transform on the next cycle
    engine.transform_line_segments().unwrap();
    assert_eq!(engine.regression_lines[0].regressor.transform, engine.current_transform);

    // dismissing the line empties the list
    engine.remove_line(0);
    assert_eq!(engine.regression_lines.len(), 0);
}

#[test]
fn engine_too_few_points_is_silent() {
    let mut engine = Engine::new();
    assert!(engine.push_to_buffer(point(5, 5)));
    engine.process_points_buffer().unwrap();
    assert_eq!(engine.regression_lines.len(), 0);
    assert_eq!(engine.visible_points().len(), 1);
}

#[test]
fn engine_degenerate_calibration_keeps_transform() {
    let mut engine = Engine::new();
    engine.enter_measurement();
    let s = point(10, 20);
    assert!(engine.push_to_buffer(s));
    assert!(engine.push_to_buffer(s));
    let before = engine.current_transform;
    assert_eq!(
        engine.calibrate(point(0, 0), point(1, 1)),
        Err(GeomError::DegenerateCalibration)
    );
    assert_eq!(engine.current_transform, before);
    assert!(engine.gathering_state == PointGatheringState::Measurement);
}

#[test]
fn visible_points_follow_mode() {
    let mut engine = Engine::new();
    engine.push_to_buffer(point(1, 1));
    assert_eq!(engine.visible_points(), vec![point(1, 1)]);
    engine.enter_measurement();
    assert_eq!(engine.visible_points(), Vec::<PointCoords>::new());
    engine.push_to_buffer(point(2, 2));
    assert_eq!(engine.visible_points(), vec![point(2, 2)]);
}

#[test]
fn color_construction() {
    let c = RGBColor::new(10, 20, 30);
    assert_eq!(c, RGBColor { r: 10, g: 20, b: 30 });
    // random_color draws real bytes from the generator; nothing more is
    // promised of the values than that the call succeeds
    let _ = RGBColor::random_color();
}

#[test]
fn frac_constructors_and_comparisons() {
    assert_eq!(Frac::new(2, 4).unwrap(), Frac::new(1, 2).unwrap());
    assert_eq!(Frac::new(3, -6).unwrap(), Frac::new(-1, 2).unwrap());
    assert!(Frac::new(1, 0).is_none());
    assert_eq!(Frac::new(0, 5).unwrap(), Frac::zero());
    let half = Frac::new(1, 2).unwrap();
    assert!(half.lt(&Frac::one()));
    assert!(!Frac::one().lt(&half));
    assert!(half.le(&half));
    assert_eq!(half.numerator(), 1);
    assert_eq!(half.denominator(), 2);
    assert_eq!(half.checked_add(half).unwrap(), Frac::one());
    assert_eq!(Frac::one().checked_sub(half).unwrap(), half);
    assert_eq!(half.checked_mul(half).unwrap(), Frac::new(1, 4).unwrap());
    assert_eq!(half.checked_div(half).unwrap(), Frac::one());
    assert!(half.checked_div(Frac::zero()).is_none());
}
