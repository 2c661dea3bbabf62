//! Mapping validation.

use gprinterp::{Binary64, Invalidity, Mapping, MappingError, Tiepoint};

fn b(x: f64) -> Binary64 {
    Binary64 { bits: x.to_bits() }
}

fn tiepoint(trace: f64, x: f64) -> Tiepoint {
    Tiepoint {
        trace: b(trace),
        x: b(x),
    }
}

#[test]
fn regular_rejects_a_non_positive_dt() {
    // dt <= 0 would make the axis non-monotone and the inverse either
    // undefined or a division by zero.
    for dt in [0.0, -0.4] {
        let err = Mapping::from_parts(Some("regular"), Some(b(0.0)), Some(b(dt)), None, None)
            .unwrap_err();
        assert!(matches!(err, MappingError::NotInvertible(_)), "dt={dt}");
    }
}

#[test]
fn tiepoints_reject_non_monotone_input() {
    let pts = [
        tiepoint(0.0, 0.0),
        tiepoint(100.0, 50.0),
        // Goes backwards in `x`: two indices would map to one value, so
        // the inverse is ambiguous.
        tiepoint(200.0, 25.0),
    ];
    let err = Mapping::from_parts(Some("tiepoints"), None, None, Some(&pts), None).unwrap_err();
    assert!(matches!(err, MappingError::NotInvertible(_)));
}

#[test]
fn tiepoints_need_at_least_two_points() {
    let pts = [tiepoint(0.0, 0.0)];
    assert!(Mapping::from_parts(Some("tiepoints"), None, None, Some(&pts), None).is_err());
}

#[test]
fn unknown_types_are_reported_rather_than_guessed() {
    let err = Mapping::from_parts(Some("polynomial"), None, None, None, None).unwrap_err();
    assert_eq!(err, MappingError::UnknownType("polynomial".into()));
}

#[test]
fn a_missing_type_is_reported() {
    let err = Mapping::from_parts(None, Some(b(0.0)), Some(b(1.0)), None, None).unwrap_err();
    assert_eq!(err, MappingError::MissingType);
}

#[test]
fn missing_fields_are_named() {
    assert_eq!(
        Mapping::from_parts(Some("regular"), None, Some(b(1.0)), None, None).unwrap_err(),
        MappingError::MissingField {
            mapping_type: "regular",
            field: "t0"
        }
    );
    assert_eq!(
        Mapping::from_parts(Some("regular"), Some(b(1.0)), None, None, None).unwrap_err(),
        MappingError::MissingField {
            mapping_type: "regular",
            field: "dt"
        }
    );
    assert_eq!(
        Mapping::from_parts(Some("tiepoints"), Some(b(1.0)), Some(b(1.0)), None, None)
            .unwrap_err(),
        MappingError::MissingField {
            mapping_type: "tiepoints",
            field: "points"
        }
    );
    assert_eq!(
        Mapping::from_parts(Some("explicit"), None, None, None, None).unwrap_err(),
        MappingError::MissingField {
            mapping_type: "explicit",
            field: "values"
        }
    );
}

#[test]
fn a_nan_dt_is_rejected_even_though_no_comparison_says_so() {
    let err = Mapping::from_parts(Some("regular"), Some(b(0.0)), Some(b(f64::NAN)), None, None)
        .unwrap_err();
    assert!(matches!(
        err,
        MappingError::NotInvertible(Invalidity::DtNotPositive { .. })
    ));
    let err = Mapping::from_parts(
        Some("regular"),
        Some(b(0.0)),
        Some(b(f64::INFINITY)),
        None,
        None,
    )
    .unwrap_err();
    assert!(matches!(
        err,
        MappingError::NotInvertible(Invalidity::DtNotPositive { .. })
    ));
}

#[test]
fn a_non_finite_t0_is_rejected() {
    let err = Mapping::from_parts(
        Some("regular"),
        Some(b(f64::NEG_INFINITY)),
        Some(b(0.4)),
        None,
        None,
    )
    .unwrap_err();
    assert_eq!(
        err,
        MappingError::NotInvertible(Invalidity::T0NotFinite {
            t0: b(f64::NEG_INFINITY)
        })
    );
}

#[test]
fn a_valid_regular_mapping_keeps_its_parameters() {
    let m = Mapping::from_parts(Some("regular"), Some(b(-12.0)), Some(b(0.4)), None, None)
        .unwrap();
    assert_eq!(
        m,
        Mapping::Regular {
            t0: b(-12.0),
            dt: b(0.4)
        }
    );
    assert_eq!(m.index_range(), None);
    assert_eq!(m.value_range(), None);
}

#[test]
fn the_first_offending_tiepoint_pair_is_reported() {
    let pts = [
        tiepoint(0.0, 0.0),
        tiepoint(10.0, 5.0),
        tiepoint(10.0, 6.0),
        tiepoint(5.0, 7.0),
    ];
    let err = Mapping::from_parts(Some("tiepoints"), None, None, Some(&pts), None).unwrap_err();
    assert_eq!(
        err,
        MappingError::NotInvertible(Invalidity::TraceNotIncreasing {
            index: 1,
            previous: b(10.0),
            next: b(10.0)
        })
    );
    let pts = [tiepoint(0.0, 0.0), tiepoint(1.0, 0.0)];
    let err = Mapping::from_parts(Some("tiepoints"), None, None, Some(&pts), None).unwrap_err();
    assert_eq!(
        err,
        MappingError::NotInvertible(Invalidity::XNotIncreasing {
            index: 0,
            previous: b(0.0),
            next: b(0.0)
        })
    );
}

#[test]
fn tiepoints_report_their_ranges() {
    let pts = [tiepoint(0.0, 100.0), tiepoint(10.0, 150.0), tiepoint(20.0, 300.0)];
    let m = Mapping::from_parts(Some("tiepoints"), None, None, Some(&pts), None).unwrap();
    assert_eq!(m.index_range(), Some((b(0.0), b(20.0))));
    assert_eq!(m.value_range(), Some((b(100.0), b(300.0))));
}

#[test]
fn explicit_values_must_increase_and_give_their_ranges() {
    let m = Mapping::from_parts(
        Some("explicit"),
        None,
        None,
        None,
        Some(&[b(5.0), b(6.0), b(9.0)]),
    )
    .unwrap();
    assert_eq!(m.index_range(), Some((b(0.0), b(2.0))));
    assert_eq!(m.value_range(), Some((b(5.0), b(9.0))));

    let err = Mapping::from_parts(Some("explicit"), None, None, None, Some(&[b(5.0)]))
        .unwrap_err();
    assert_eq!(
        err,
        MappingError::NotInvertible(Invalidity::TooFewValues { count: 1 })
    );
    let err = Mapping::from_parts(
        Some("explicit"),
        None,
        None,
        None,
        Some(&[b(5.0), b(6.0), b(f64::NAN)]),
    )
    .unwrap_err();
    assert!(matches!(
        err,
        MappingError::NotInvertible(Invalidity::ValuesNotIncreasing { index: 1, .. })
    ));
}
