//! The library's smaller pieces, one behaviour per test: coordinate tuples,
//! geometry types, feature properties, anchor selection fallbacks, the
//! validation report item by item, and the interpolation segment search.

use gprinterp::document::is_false;
use gprinterp::mapping::segment;
use gprinterp::reanchor;
use gprinterp::{
    AnchorAxis, Axes, Axis, Binary64, Convention, Coordinates, Document, Feature, Geometry,
    GeometryType, Invalidity, Mapping, MappingError, Position, ReanchorError, Report,
    RevisionAxes, Source, Tiepoint, ValidationError, ValidationWarning,
};
use serde_json::Value;

type Object = serde_json::Map<String, Value>;

fn b(x: f64) -> Binary64 {
    Binary64 { bits: x.to_bits() }
}

fn f(v: Binary64) -> f64 {
    f64::from_bits(v.bits)
}

fn bs(xs: &[f64]) -> Vec<Binary64> {
    xs.iter().map(|x| b(*x)).collect()
}

fn pos(x: f64, y: f64) -> Position {
    Position(vec![b(x), b(y)])
}

fn object(entries: &[(&str, Value)]) -> Object {
    let mut map = Object::new();
    for (k, v) in entries {
        map.insert(k.to_string(), v.clone());
    }
    map
}

fn text(s: &str) -> Value {
    Value::String(s.to_string())
}

fn feature(geometry: Geometry, properties: Option<Object>) -> Feature {
    Feature {
        type_: "Feature".to_string(),
        geometry,
        properties,
        extra: Object::new(),
    }
}

fn labelled(label: &str, id: &str, geometry: Geometry) -> Feature {
    feature(
        geometry,
        Some(object(&[("label", text(label)), ("id", text(id))])),
    )
}

fn document(features: Vec<Feature>) -> Document {
    Document {
        key: "line".to_string(),
        features,
        schema: None,
        schema_version: None,
        date_modified: None,
        source: None,
        coordinates: None,
        meta: None,
        extra: Object::new(),
    }
}

fn regular(name: &str, t0: f64, dt: f64) -> AnchorAxis {
    AnchorAxis {
        name: name.into(),
        type_: Some("regular".into()),
        t0: Some(b(t0)),
        dt: Some(b(dt)),
        ..Default::default()
    }
}

fn with_axes(mut doc: Document, x: Vec<AnchorAxis>, y: Vec<AnchorAxis>) -> Document {
    doc.coordinates = Some(Coordinates {
        axes: Some(Axes {
            x: Some(Axis {
                anchor: x,
                ..Default::default()
            }),
            y: Some(Axis {
                anchor: y,
                ..Default::default()
            }),
            extra: Object::new(),
        }),
        ..Default::default()
    });
    doc
}

/// Piecewise-linear interpolation through the segment the library picks.
fn interpolate(xs: &[f64], ys: &[f64], at: f64) -> f64 {
    let (lo, hi) = segment(&bs(xs), b(at));
    let t = (at - xs[lo]) / (xs[hi] - xs[lo]);
    ys[lo] + t * (ys[hi] - ys[lo])
}

fn eval(m: &Mapping, index: f64) -> f64 {
    match m {
        Mapping::Regular { t0, dt } => f(*t0) + index * f(*dt),
        Mapping::Tiepoints { points } => {
            let xs: Vec<f64> = points.iter().map(|p| f(p.trace)).collect();
            let ys: Vec<f64> = points.iter().map(|p| f(p.x)).collect();
            interpolate(&xs, &ys, index)
        }
        Mapping::Explicit { values } => {
            let xs: Vec<f64> = (0..values.len()).map(|i| i as f64).collect();
            let ys: Vec<f64> = values.iter().map(|v| f(*v)).collect();
            interpolate(&xs, &ys, index)
        }
    }
}

fn invert(m: &Mapping, value: f64) -> f64 {
    match m {
        Mapping::Regular { t0, dt } => (value - f(*t0)) / f(*dt),
        Mapping::Tiepoints { points } => {
            let xs: Vec<f64> = points.iter().map(|p| f(p.x)).collect();
            let ys: Vec<f64> = points.iter().map(|p| f(p.trace)).collect();
            interpolate(&xs, &ys, value)
        }
        Mapping::Explicit { values } => {
            let xs: Vec<f64> = values.iter().map(|v| f(*v)).collect();
            let ys: Vec<f64> = (0..values.len()).map(|i| i as f64).collect();
            interpolate(&xs, &ys, value)
        }
    }
}

fn tiepoints(points: &[(f64, f64)]) -> Mapping {
    let pts: Vec<Tiepoint> = points
        .iter()
        .map(|(trace, x)| Tiepoint {
            trace: b(*trace),
            x: b(*x),
        })
        .collect();
    Mapping::from_parts(Some("tiepoints"), None, None, Some(&pts), None).unwrap()
}

// ---- the interpolation segment and the mappings evaluated through it ----

#[test]
fn segment_picks_the_interval_holding_the_point() {
    let xs = bs(&[0.0, 10.0, 11.0, 500.0]);
    assert_eq!(segment(&xs, b(5.0)), (0, 1));
    assert_eq!(segment(&xs, b(10.0)), (1, 2));
    assert_eq!(segment(&xs, b(10.5)), (1, 2));
    assert_eq!(segment(&xs, b(11.0)), (2, 3));
    assert_eq!(segment(&xs, b(0.0)), (0, 1));
    // The last entry belongs to the last pair.
    assert_eq!(segment(&xs, b(500.0)), (2, 3));
}

#[test]
fn segment_extrapolates_along_the_terminal_pairs() {
    let xs = bs(&[0.0, 10.0, 20.0]);
    assert_eq!(segment(&xs, b(-5.0)), (0, 1));
    assert_eq!(segment(&xs, b(25.0)), (1, 2));
    assert_eq!(segment(&xs, b(f64::NEG_INFINITY)), (0, 1));
    assert_eq!(segment(&xs, b(f64::INFINITY)), (1, 2));
    // No entry is at or below NaN.
    assert_eq!(segment(&xs, b(f64::NAN)), (0, 1));
}

#[test]
fn regular_round_trips_through_its_inverse() {
    let m = Mapping::from_parts(Some("regular"), Some(b(-12.0)), Some(b(0.4)), None, None).unwrap();
    assert_eq!(eval(&m, 0.0), -12.0);
    assert_eq!(eval(&m, 30.0), 0.0);
    for index in [0.0, 1.5, 30.0, 2047.0] {
        assert!((invert(&m, eval(&m, index)) - index).abs() < 1e-9);
    }
}

#[test]
fn tiepoints_interpolate_and_invert() {
    let m = tiepoints(&[(0.0, 100.0), (100.0, 200.0)]);
    assert_eq!(eval(&m, 50.0), 150.0);
    assert_eq!(invert(&m, 150.0), 50.0);
}

#[test]
fn tiepoints_extrapolate_along_the_terminal_segments() {
    let m = tiepoints(&[(0.0, 0.0), (10.0, 10.0), (20.0, 30.0)]);
    assert_eq!(eval(&m, -5.0), -5.0);
    assert_eq!(eval(&m, 25.0), 40.0);
}

#[test]
fn explicit_maps_index_to_value_positionally() {
    let values = bs(&[5.0, 6.0, 9.0]);
    let m = Mapping::from_parts(Some("explicit"), None, None, None, Some(&values)).unwrap();
    assert_eq!(eval(&m, 0.0), 5.0);
    assert_eq!(eval(&m, 1.5), 7.5);
    assert_eq!(invert(&m, 9.0), 2.0);
    assert_eq!(m.index_range(), Some((b(0.0), b(2.0))));
}

#[test]
fn interpolation_is_exact_at_every_tiepoint() {
    let m = tiepoints(&[(0.0, 0.0), (10.0, 100.0), (11.0, 101.0), (500.0, 900.0)]);
    for (trace, value) in [(0.0, 0.0), (10.0, 100.0), (11.0, 101.0), (500.0, 900.0)] {
        assert_eq!(eval(&m, trace), value, "eval at {trace}");
        assert_eq!(invert(&m, value), trace, "invert at {value}");
    }
}

#[test]
fn a_regular_mapping_has_no_ranges() {
    let m = Mapping::from_parts(Some("regular"), Some(b(0.0)), Some(b(1.0)), None, None).unwrap();
    assert_eq!(m.index_range(), None);
    assert_eq!(m.value_range(), None);
}

#[test]
fn the_index_range_of_a_long_explicit_mapping_is_its_last_index() {
    let values: Vec<Binary64> = (0..1200).map(|i| b(i as f64 * 0.5)).collect();
    let m = Mapping::from_parts(Some("explicit"), None, None, None, Some(&values)).unwrap();
    assert_eq!(m.index_range(), Some((b(0.0), b(1199.0))));
    assert_eq!(m.value_range(), Some((b(0.0), b(599.5))));
}

#[test]
fn an_infinite_dt_is_rejected() {
    let err = Mapping::from_parts(Some("regular"), Some(b(0.0)), Some(b(f64::INFINITY)), None, None)
        .unwrap_err();
    assert_eq!(
        err,
        MappingError::NotInvertible(Invalidity::DtNotPositive {
            dt: b(f64::INFINITY)
        })
    );
}

#[test]
fn a_nan_explicit_value_breaks_monotonicity() {
    let values = bs(&[0.0, f64::NAN, 2.0]);
    let err = Mapping::from_parts(Some("explicit"), None, None, None, Some(&values)).unwrap_err();
    match err {
        MappingError::NotInvertible(Invalidity::ValuesNotIncreasing { index, previous, next }) => {
            assert_eq!(index, 0);
            assert_eq!(previous.bits, 0.0f64.to_bits());
            assert!(f(next).is_nan());
        }
        other => panic!("unexpected {other:?}"),
    }
}

#[test]
fn too_few_explicit_values_are_counted() {
    let values = bs(&[1.0]);
    assert_eq!(
        Mapping::from_parts(Some("explicit"), None, None, None, Some(&values)).unwrap_err(),
        MappingError::NotInvertible(Invalidity::TooFewValues { count: 1 })
    );
}

// ---- coordinate tuples and geometries ----

#[test]
fn a_position_reads_x_and_y_when_present() {
    let p = Position(vec![b(1.5), b(2.5), b(7.0)]);
    assert_eq!(p.x(), Some(b(1.5)));
    assert_eq!(p.y(), Some(b(2.5)));
    let short = Position(vec![b(3.0)]);
    assert_eq!(short.x(), Some(b(3.0)));
    assert_eq!(short.y(), None);
    assert_eq!(Position(vec![]).x(), None);
}

#[test]
fn with_xy_keeps_further_elements_and_completes_short_tuples() {
    let p = Position(vec![b(1.0), b(2.0), b(7.0)]);
    let q = p.with_xy(b(10.0), b(20.0));
    assert_eq!(q.0, vec![b(10.0), b(20.0), b(7.0)]);
    let short = Position(vec![b(1.0)]).with_xy(b(4.0), b(5.0));
    assert_eq!(short.0, vec![b(4.0), b(5.0)]);
}

#[test]
fn every_modelled_geometry_names_its_type() {
    let cases = [
        (Geometry::Point(pos(0.0, 0.0)), "Point"),
        (Geometry::MultiPoint(vec![]), "MultiPoint"),
        (Geometry::LineString(vec![]), "LineString"),
        (Geometry::MultiLineString(vec![]), "MultiLineString"),
        (Geometry::Polygon(vec![]), "Polygon"),
        (Geometry::MultiPolygon(vec![]), "MultiPolygon"),
        (Geometry::GeometryCollection(vec![]), "GeometryCollection"),
    ];
    for (g, name) in cases {
        assert_eq!(g.type_string(), name);
        let ty = GeometryType::from_name(name).unwrap();
        let expected = if name == "GeometryCollection" { "geometries" } else { "coordinates" };
        assert_eq!(ty.body_key(), expected);
    }
    assert_eq!(GeometryType::from_name("Circle"), None);
    assert_eq!(GeometryType::from_name("point"), None);
}

#[test]
fn an_unmodelled_geometry_reports_its_own_type() {
    let circle = Geometry::Unknown(object(&[("type", text("Circle")), ("radius", Value::from(3))]));
    assert_eq!(circle.type_string(), "Circle");
    let untyped = Geometry::Unknown(object(&[("type", Value::from(7))]));
    assert_eq!(untyped.type_string(), "<untyped>");
    assert_eq!(Geometry::Unknown(Object::new()).type_string(), "<untyped>");
}

#[test]
fn positions_are_listed_in_document_order() {
    let polygon = Geometry::Polygon(vec![
        vec![pos(0.0, 0.0), pos(1.0, 0.0)],
        vec![pos(2.0, 2.0)],
    ]);
    let collection = Geometry::GeometryCollection(vec![
        Geometry::Point(pos(9.0, 9.0)),
        polygon,
        Geometry::Unknown(Object::new()),
        Geometry::MultiPolygon(vec![vec![vec![pos(5.0, 5.0)]]]),
    ]);
    let xs: Vec<f64> = collection
        .positions()
        .iter()
        .map(|p| f(p.x().unwrap()))
        .collect();
    assert_eq!(xs, vec![9.0, 0.0, 1.0, 2.0, 5.0]);
}

#[test]
fn mapping_positions_keeps_the_shape_and_stops_at_a_refusal() {
    let line = Geometry::MultiLineString(vec![
        vec![pos(1.0, 1.0), pos(2.0, 2.0)],
        vec![pos(3.0, 3.0)],
    ]);
    let doubled = line
        .try_map_positions(&|p: &Position| Some(p.with_xy(b(f(p.x()?) * 2.0), p.y()?)))
        .unwrap();
    match doubled {
        Geometry::MultiLineString(rings) => {
            assert_eq!(rings.len(), 2);
            assert_eq!(rings[0], vec![pos(2.0, 1.0), pos(4.0, 2.0)]);
            assert_eq!(rings[1], vec![pos(6.0, 3.0)]);
        }
        other => panic!("unexpected {other:?}"),
    }
    let refused = line.try_map_positions(&|p: &Position| {
        if f(p.x()?) > 2.5 {
            None
        } else {
            Some(p.clone())
        }
    });
    assert_eq!(refused, None);
    let unknown = Geometry::Unknown(object(&[("type", text("Circle"))]));
    assert_eq!(
        unknown.try_map_positions(&|_: &Position| None),
        Some(Geometry::Unknown(object(&[("type", text("Circle"))])))
    );
}

// ---- features, axes and anchors ----

#[test]
fn label_and_id_are_read_only_when_they_are_strings() {
    let f1 = labelled("bed", "f-1", Geometry::Point(pos(0.0, 0.0)));
    assert_eq!(f1.label(), Some("bed"));
    assert_eq!(f1.id(), Some("f-1"));
    let f2 = feature(
        Geometry::Point(pos(0.0, 0.0)),
        Some(object(&[("label", Value::from(3)), ("kind", text("horizon"))])),
    );
    assert_eq!(f2.label(), None);
    assert_eq!(f2.id(), None);
    let f3 = feature(Geometry::Point(pos(0.0, 0.0)), None);
    assert_eq!(f3.label(), None);
}

#[test]
fn the_deprecated_fallback_key_is_used_only_without_anchors() {
    let old = Axis {
        fallback: vec![regular("twtt", 0.0, 1.0)],
        ..Default::default()
    };
    assert_eq!(old.anchors().len(), 1);
    assert_eq!(old.anchors()[0].name, "twtt");
    let both = Axis {
        anchor: vec![regular("recording_time", 0.0, 1.0)],
        fallback: vec![regular("twtt", 0.0, 1.0)],
        ..Default::default()
    };
    assert_eq!(both.anchors()[0].name, "recording_time");
}

#[test]
fn an_anchor_without_a_type_has_no_mapping() {
    let anchor = AnchorAxis {
        name: "twtt".into(),
        ..Default::default()
    };
    assert_eq!(anchor.mapping(), Err(MappingError::MissingType));
    assert_eq!(
        regular("twtt", -12.0, 0.4).mapping(),
        Ok(Mapping::Regular {
            t0: b(-12.0),
            dt: b(0.4)
        })
    );
}

#[test]
fn is_false_is_the_negation() {
    assert!(is_false(&false));
    assert!(!is_false(&true));
}

#[test]
fn layers_group_unlabelled_features_together_in_first_appearance_order() {
    let doc = document(vec![
        labelled("bed", "a", Geometry::Point(pos(0.0, 0.0))),
        feature(Geometry::Point(pos(1.0, 0.0)), None),
        labelled("water", "b", Geometry::Point(pos(2.0, 0.0))),
        labelled("bed", "c", Geometry::Point(pos(3.0, 0.0))),
        feature(Geometry::Point(pos(4.0, 0.0)), Some(Object::new())),
    ]);
    let layers = doc.layers();
    let names: Vec<Option<&str>> = layers.iter().map(|l| l.0).collect();
    assert_eq!(names, vec![Some("bed"), None, Some("water")]);
    let sizes: Vec<usize> = layers.iter().map(|l| l.1.len()).collect();
    assert_eq!(sizes, vec![2, 2, 1]);
    // Every feature is in exactly one layer.
    assert_eq!(sizes.iter().sum::<usize>(), doc.features.len());
    assert_eq!(layers[0].1[1].id(), Some("c"));
}

// ---- validation, item by item ----

#[test]
fn each_unsupported_convention_value_is_an_error() {
    let mut doc = document(vec![]);
    doc.coordinates = Some(Coordinates {
        convention: Some(Convention {
            origin: Some("lower-left".into()),
            indexing: Some("zero-based".into()),
            pixel_reference: Some("corner".into()),
            ..Default::default()
        }),
        ..Default::default()
    });
    let report = gprinterp::validate(&doc);
    assert!(!report.is_valid());
    assert_eq!(
        report.errors,
        vec![
            ValidationError::UnsupportedConvention {
                field: "origin",
                value: "lower-left".into(),
                permitted: "upper-left",
            },
            ValidationError::UnsupportedConvention {
                field: "pixel_reference",
                value: "corner".into(),
                permitted: "center",
            },
        ]
    );
}

#[test]
fn an_entry_that_is_not_a_feature_is_an_error() {
    let mut entry = labelled("bed", "a", Geometry::Point(pos(0.0, 0.0)));
    entry.type_ = "Feature ".into();
    let report = gprinterp::validate(&document(vec![entry]));
    assert_eq!(
        report.errors,
        vec![ValidationError::NotAFeature {
            index: 0,
            found: "Feature ".into()
        }]
    );
    assert!(!report.is_valid());
}

#[test]
fn property_warnings_name_each_missing_or_repeated_item() {
    let doc = document(vec![
        feature(Geometry::Point(pos(0.0, 0.0)), None),
        feature(Geometry::Point(pos(0.0, 0.0)), Some(Object::new())),
        labelled("bed", "x", Geometry::Point(pos(0.0, 0.0))),
        labelled("bed", "x", Geometry::Point(pos(0.0, 0.0))),
        labelled("bed", "x", Geometry::Point(pos(0.0, 0.0))),
    ]);
    let report = gprinterp::validate(&doc);
    assert!(report.is_valid());
    assert_eq!(
        report.warnings,
        vec![
            ValidationWarning::NotReanchorable,
            ValidationWarning::MissingProperties { index: 0 },
            ValidationWarning::MissingLabel { index: 1 },
            ValidationWarning::MissingId { index: 1 },
            ValidationWarning::DuplicateId {
                index: 3,
                id: "x".into()
            },
            ValidationWarning::DuplicateId {
                index: 4,
                id: "x".into()
            },
        ]
    );
}

#[test]
fn coordinates_are_checked_against_the_declared_shape() {
    let mut doc = document(vec![labelled(
        "bed",
        "a",
        Geometry::LineString(vec![
            pos(0.0, 0.0),
            pos(-0.5, 2047.0),
            pos(1200.0, 2048.0),
            pos(f64::NAN, 10.0),
            Position(vec![b(5.0)]),
        ]),
    )]);
    doc.source = Some(Source {
        n_traces: Some(1200),
        n_samples: Some(2048),
        ..Default::default()
    });
    let report = gprinterp::validate(&doc);
    assert_eq!(
        report.warnings[1..].to_vec(),
        vec![
            ValidationWarning::OutOfBounds {
                index: 0,
                axis: "x",
                value: b(-0.5),
                limit: 1200
            },
            ValidationWarning::OutOfBounds {
                index: 0,
                axis: "x",
                value: b(1200.0),
                limit: 1200
            },
            ValidationWarning::OutOfBounds {
                index: 0,
                axis: "y",
                value: b(2048.0),
                limit: 2048
            },
        ]
    );
}

#[test]
fn unusable_anchors_are_reported_with_their_reason() {
    let bad = AnchorAxis {
        name: "original_trace".into(),
        type_: Some("tiepoints".into()),
        points: Some(vec![Tiepoint {
            trace: b(0.0),
            x: b(0.0),
        }]),
        ..Default::default()
    };
    let doc = with_axes(
        document(vec![]),
        vec![bad, regular("trace_time", 0.0, 1.0)],
        vec![regular("twtt", 0.0, -1.0)],
    );
    let report = gprinterp::validate(&doc);
    assert!(report.is_valid());
    assert_eq!(
        report.warnings,
        vec![
            ValidationWarning::UnusableAnchor {
                axis: "x",
                name: "original_trace".into(),
                reason: MappingError::NotInvertible(Invalidity::TooFewTiepoints { count: 1 }),
            },
            ValidationWarning::UnusableAnchor {
                axis: "y",
                name: "twtt".into(),
                reason: MappingError::NotInvertible(Invalidity::DtNotPositive { dt: b(-1.0) }),
            },
        ]
    );
}

#[test]
fn declared_axes_without_any_anchor_are_not_reanchorable() {
    let doc = with_axes(document(vec![]), vec![], vec![]);
    let report = gprinterp::validate(&doc);
    assert_eq!(report.warnings, vec![ValidationWarning::NotReanchorable]);
}

#[test]
fn an_unmodelled_geometry_is_warned_about_by_its_type() {
    let doc = document(vec![labelled(
        "bed",
        "a",
        Geometry::Unknown(object(&[("type", text("Circle"))])),
    )]);
    let report = gprinterp::validate(&doc);
    assert_eq!(
        report.warnings,
        vec![
            ValidationWarning::NotReanchorable,
            ValidationWarning::UnknownGeometryType {
                index: 0,
                type_string: "Circle".into()
            },
        ]
    );
}

#[test]
fn a_report_is_valid_exactly_without_errors() {
    let empty = Report {
        errors: vec![],
        warnings: vec![ValidationWarning::NotReanchorable],
    };
    assert!(empty.is_valid());
    let one = Report {
        errors: vec![ValidationError::NotAFeature {
            index: 0,
            found: String::new(),
        }],
        warnings: vec![],
    };
    assert!(!one.is_valid());
}

// ---- re-anchoring laws on concrete documents ----

fn identity(_: &Mapping, _: &Mapping, v: Binary64) -> Binary64 {
    v
}

#[test]
fn every_feature_is_either_kept_or_reported() {
    let x = vec![AnchorAxis {
        name: "original_trace".into(),
        type_: Some("tiepoints".into()),
        points: Some(vec![
            Tiepoint {
                trace: b(0.0),
                x: b(0.0),
            },
            Tiepoint {
                trace: b(99.0),
                x: b(99.0),
            },
        ]),
        ..Default::default()
    }];
    let y = vec![regular("twtt", 0.0, 1.0)];
    let doc = with_axes(
        document(vec![
            labelled("bed", "in", Geometry::Point(pos(10.0, 10.0))),
            labelled("bed", "out", Geometry::Point(pos(150.0, 10.0))),
            labelled("bed", "edge", Geometry::Point(pos(99.0, 0.0))),
            labelled("bed", "below", Geometry::Point(pos(-1.0, 0.0))),
        ]),
        x.clone(),
        y.clone(),
    );
    let target = RevisionAxes { x, y };
    let out = reanchor(&doc, &target, &identity).unwrap();
    assert_eq!(out.document.features.len() + out.dropped.len(), doc.features.len());
    let kept: Vec<Option<&str>> = out.document.features.iter().map(|f| f.id()).collect();
    assert_eq!(kept, vec![Some("in"), Some("edge")]);
    let dropped: Vec<usize> = out.dropped.iter().map(|d| d.index).collect();
    assert_eq!(dropped, vec![1, 3]);
    assert_eq!(out.dropped[0].id.as_deref(), Some("out"));
    assert_eq!(out.dropped[0].label.as_deref(), Some("bed"));
    assert!(out.y_is_approximate);
}

#[test]
fn a_non_finite_resolved_coordinate_drops_its_feature() {
    let y = vec![regular("twtt", 0.0, 1.0)];
    let x = vec![regular("trace_time", 0.0, 1.0)];
    let doc = with_axes(
        document(vec![labelled("bed", "a", Geometry::Point(pos(1.0, 1.0)))]),
        x.clone(),
        y.clone(),
    );
    let nan = |_: &Mapping, _: &Mapping, _: Binary64| b(f64::NAN);
    let out = reanchor(&doc, &RevisionAxes { x, y }, &nan).unwrap();
    assert!(out.document.features.is_empty());
    assert_eq!(out.dropped.len(), 1);
}

#[test]
fn a_document_with_coordinates_but_no_axes_is_refused() {
    let mut doc = document(vec![]);
    doc.coordinates = Some(Coordinates::default());
    assert_eq!(
        reanchor(&doc, &RevisionAxes::default(), &identity),
        Err(ReanchorError::NoCoordinates)
    );
}

#[test]
fn axis_directions_other_than_right_and_down_are_errors() {
    let mut doc = document(vec![]);
    doc.coordinates = Some(Coordinates {
        convention: Some(Convention {
            origin: Some("upper-left".into()),
            axis_directions: Some(object(&[("x", text("left")), ("y", text("up"))])),
            ..Default::default()
        }),
        ..Default::default()
    });
    let report = gprinterp::validate(&doc);
    assert!(!report.is_valid());
    assert_eq!(
        report.errors,
        vec![
            ValidationError::UnsupportedConvention {
                field: "axis_directions.x",
                value: "left".into(),
                permitted: "right",
            },
            ValidationError::UnsupportedConvention {
                field: "axis_directions.y",
                value: "up".into(),
                permitted: "down",
            },
        ]
    );
}

#[test]
fn the_permitted_axis_directions_are_valid() {
    let mut doc = document(vec![]);
    doc.coordinates = Some(Coordinates {
        convention: Some(Convention {
            axis_directions: Some(object(&[("x", text("right")), ("y", text("down"))])),
            ..Default::default()
        }),
        ..Default::default()
    });
    assert!(gprinterp::validate(&doc).errors.is_empty());
}

#[test]
fn an_empty_report_is_the_default() {
    let report = Report::default();
    assert!(report.errors.is_empty() && report.warnings.is_empty());
    assert!(report.is_valid());
}

#[test]
fn a_cloned_geometry_equals_the_original() {
    let g = Geometry::GeometryCollection(vec![
        Geometry::Polygon(vec![vec![pos(0.0, 0.0), Position(vec![b(1.0), b(2.0), b(3.0)])]]),
        Geometry::Unknown(object(&[("type", text("Circle"))])),
    ]);
    assert_eq!(g.clone(), g);
    let doc = document(vec![labelled("bed", "a", g)]);
    assert_eq!(doc.clone(), doc);
}
