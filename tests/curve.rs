use transition::args::Args;
use transition::curve::{Curvature, CurveError, Diminish, Param, Radius};

#[test]
fn radius_must_be_positive() {
    assert_eq!(Radius::new(1_100), Ok(Radius { mm: 1_100 }));
    assert_eq!(Radius::new(0), Err(CurveError::InvalidRadius));
    assert_eq!(Radius::new(-5), Err(CurveError::InvalidRadius));
    assert_eq!(Radius::new(1 << 32), Err(CurveError::InvalidRadius));
}

#[test]
fn curvature_reports_its_radius() {
    let r = Radius::new(2_000).unwrap();
    assert_eq!(Curvature::Circular(r).r(), Some(r));
    assert_eq!(Curvature::Straight.r(), None);
    assert!(Curvature::Straight.is_straight());
    assert!(!Curvature::Circular(r).is_straight());
}

#[test]
fn law_codes() {
    assert_eq!(Diminish::from_code(1), Ok(Diminish::Sine));
    assert_eq!(Diminish::from_code(2), Ok(Diminish::Linear));
    assert_eq!(Diminish::from_code(0), Err(CurveError::InvalidCurvatureLaw));
    assert_eq!(Diminish::from_code(3), Err(CurveError::InvalidCurvatureLaw));
}

#[test]
fn parameters_are_checked() {
    let p = Param::new(1, Some(1_100), Some(2_000), Some(3_000)).unwrap();
    assert_eq!(p.diminish, Diminish::Sine);
    assert_eq!(p.k0.r(), Some(Radius { mm: 1_100 }));
    assert_eq!(p.k1.r(), Some(Radius { mm: 2_000 }));
    assert_eq!(p.tcl, 3_000);

    let p = Param::new(2, None, None, Some(3_000)).unwrap();
    assert_eq!(p.diminish, Diminish::Linear);
    assert!(p.k0.is_straight());
    assert!(p.k1.is_straight());
}

#[test]
fn length_must_be_given_and_positive() {
    assert_eq!(Param::new(1, None, None, None), Err(CurveError::InvalidLength));
    assert_eq!(Param::new(1, None, None, Some(0)), Err(CurveError::InvalidLength));
    assert_eq!(Param::new(1, None, None, Some(-1_000)), Err(CurveError::InvalidLength));
}

#[test]
fn radii_are_checked() {
    assert_eq!(Param::new(1, Some(0), None, Some(3_000)), Err(CurveError::InvalidRadius));
    assert_eq!(Param::new(1, None, Some(0), Some(3_000)), Err(CurveError::InvalidRadius));
}

#[test]
fn law_is_checked_first() {
    assert_eq!(Param::new(0, Some(0), None, None), Err(CurveError::InvalidCurvatureLaw));
    assert_eq!(Param::new(1, Some(0), None, None), Err(CurveError::InvalidRadius));
}

#[test]
fn errors_have_messages() {
    for e in [
        CurveError::InvalidRadius,
        CurveError::InvalidCurvatureLaw,
        CurveError::InvalidLength,
        CurveError::InvalidInterval,
    ] {
        assert!(!e.message().is_empty());
    }
    assert_ne!(CurveError::InvalidRadius.message(), CurveError::InvalidLength.message());
}

#[test]
fn transition_request_hands_out_its_parts() {
    let param = Param::new(1, None, None, Some(3_000));
    let args = Args::Transition("./JWC_TEMP.TXT".to_string(), param);
    let (path, p) = args.unwrap_transition();
    assert_eq!(path, "./JWC_TEMP.TXT");
    assert_eq!(p.as_ref().unwrap().tcl, 3_000);
}
