use linecal::frac::Frac;
use linecal::point_handling::PointCoords;
use linecal::format::{
    pretty_line_equation, frac_to_text, export_csv, export_filename, parse_frac,
    PointCoordsStringy,
};

#[test]
fn equation_integer_values() {
    let s = pretty_line_equation(&Frac::from_int(2), &Frac::zero());
    assert_eq!(s, "y = 2.000x + 0.000");
}

#[test]
fn equation_negative_intercept() {
    // slope 1/2 = 0.500, intercept -5/4 = -1.250
    let s = pretty_line_equation(&Frac::new(1, 2).unwrap(), &Frac::new(-5, 4).unwrap());
    assert_eq!(s, "y = 0.500x - 1.250");
}

#[test]
fn equation_negative_slope() {
    let s = pretty_line_equation(&Frac::new(-6, 13).unwrap(), &Frac::from_int(3));
    // -6/13 = -0.4615...; rounds to -0.462
    assert_eq!(s, "y = -0.462x + 3.000");
}

#[test]
fn equation_rounding_ties_away_from_zero() {
    // 1/2000 = 0.0005 rounds to 0.001
    let s = pretty_line_equation(&Frac::new(1, 2000).unwrap(), &Frac::new(-1, 2000).unwrap());
    assert_eq!(s, "y = 0.001x - 0.001");
}

#[test]
fn frac_text_forms() {
    assert_eq!(frac_to_text(&Frac::from_int(17)), "17");
    assert_eq!(frac_to_text(&Frac::from_int(-3)), "-3");
    assert_eq!(frac_to_text(&Frac::new(7, 2).unwrap()), "7/2");
    assert_eq!(frac_to_text(&Frac::new(-10, 4).unwrap()), "-5/2");
}

#[test]
fn csv_lines() {
    let points = vec![
        PointCoords::from_ints(1, 2),
        PointCoords::new(Frac::new(3, 2).unwrap(), Frac::from_int(-5)),
    ];
    assert_eq!(export_csv(&points), "1,2\n3/2,-5\n");
}

#[test]
fn filenames() {
    assert_eq!(export_filename(0), "line_0.csv");
    assert_eq!(export_filename(3), "line_3.csv");
    assert_eq!(export_filename(12), "line_12.csv");
}

#[test]
fn parse_decimal_and_fraction() {
    assert_eq!(parse_frac("3.5"), Some(Frac::new(7, 2).unwrap()));
    assert_eq!(parse_frac("0.866"), Some(Frac::new(433, 500).unwrap()));
    assert_eq!(parse_frac("-0.5"), Some(Frac::new(-1, 2).unwrap()));
    assert_eq!(parse_frac("10"), Some(Frac::from_int(10)));
    assert_eq!(parse_frac("-7"), Some(Frac::from_int(-7)));
    assert_eq!(parse_frac("1/3"), Some(Frac::new(1, 3).unwrap()));
    assert_eq!(parse_frac("-9/6"), Some(Frac::new(-3, 2).unwrap()));
}

#[test]
fn parse_rejects_bad_text() {
    assert_eq!(parse_frac(""), None);
    assert_eq!(parse_frac("-"), None);
    assert_eq!(parse_frac("abc"), None);
    assert_eq!(parse_frac("3."), None);
    assert_eq!(parse_frac(".5"), None);
    assert_eq!(parse_frac("1.2.3"), None);
    assert_eq!(parse_frac("1/0"), None);
    assert_eq!(parse_frac("12345678901234567890"), None);
}

#[test]
fn stringy_round_trip() {
    let x = Frac::new(7, 2).unwrap();
    let y = Frac::from_int(-3);
    let s = PointCoordsStringy::new_numeric(&x, &y);
    assert_eq!(s.x, "7/2");
    assert_eq!(s.y, "-3");
    let p = s.try_as_numeric().unwrap();
    assert_eq!(p.x, x);
    assert_eq!(p.y, y);
}

#[test]
fn stringy_bad_input_is_none() {
    let s = PointCoordsStringy { x: String::from("12.5"), y: String::from("oops") };
    assert!(s.try_as_numeric().is_none());
}
