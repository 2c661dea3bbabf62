//! The worked examples of the format, written out as documents: the
//! minimal one (no metadata, a line and a point) and the recommended,
//! re-anchorable one.

use gprinterp::{
    AnchorAxis, Axes, Axis, Binary64, Convention, Coordinates, Document, Feature, Geometry,
    Mapping, Position, PrimaryAxis, Source, Tiepoint, ValidationWarning,
};
use serde_json::Value;

type Object = serde_json::Map<String, Value>;

fn b(x: f64) -> Binary64 {
    Binary64 { bits: x.to_bits() }
}

fn f(v: Binary64) -> f64 {
    f64::from_bits(v.bits)
}

fn position(x: f64, y: f64) -> Position {
    Position(vec![b(x), b(y)])
}

fn object(entries: &[(&str, &str)]) -> Object {
    let mut map = Object::new();
    for (k, v) in entries {
        map.insert(k.to_string(), Value::String(v.to_string()));
    }
    map
}

fn feature(geometry: Geometry, properties: Option<Object>) -> Feature {
    Feature {
        type_: "Feature".to_string(),
        geometry,
        properties,
        extra: Object::new(),
    }
}

fn document(key: &str, features: Vec<Feature>) -> Document {
    Document {
        key: key.to_string(),
        features,
        schema: None,
        schema_version: None,
        date_modified: None,
        source: None,
        coordinates: None,
        meta: None,
        extra: Object::new(),
    }
}

fn minimal() -> Document {
    document(
        "line_07_003",
        vec![
            feature(
                Geometry::LineString(vec![
                    position(10.5, 200.0),
                    position(200.25, 210.75),
                    position(500.0, 220.0),
                ]),
                None,
            ),
            feature(Geometry::Point(position(300.0, 215.0)), None),
        ],
    )
}

fn tiepoints_anchor(name: &str, unit: &str, points: &[(f64, f64)]) -> AnchorAxis {
    AnchorAxis {
        name: name.to_string(),
        unit: Some(unit.to_string()),
        type_: Some("tiepoints".to_string()),
        points: Some(
            points
                .iter()
                .map(|(t, x)| Tiepoint { trace: b(*t), x: b(*x) })
                .collect(),
        ),
        ..Default::default()
    }
}

fn recommended() -> Document {
    let mut directions = Object::new();
    directions.insert("x".into(), Value::String("right".into()));
    directions.insert("y".into(), Value::String("down".into()));
    let x = Axis {
        primary: Some(PrimaryAxis {
            name: Some("trace_index".into()),
            unit: Some("index".into()),
            extra: Object::new(),
        }),
        anchor: vec![
            tiepoints_anchor("original_trace", "index", &[(0.0, 340.0), (1199.0, 1539.0)]),
            tiepoints_anchor(
                "trace_time",
                "s",
                &[(0.0, 1677501559.0), (1199.0, 1677502104.5)],
            ),
        ],
        fallback: vec![],
        extra: Object::new(),
    };
    let y = Axis {
        primary: Some(PrimaryAxis {
            name: Some("sample_index".into()),
            unit: Some("index".into()),
            extra: Object::new(),
        }),
        anchor: vec![AnchorAxis {
            name: "twtt".into(),
            unit: Some("ns".into()),
            type_: Some("regular".into()),
            t0: Some(b(-12.0)),
            dt: Some(b(0.4)),
            ..Default::default()
        }],
        fallback: vec![],
        extra: Object::new(),
    };
    let mut doc = document(
        "line_07_003",
        vec![
            feature(
                Geometry::LineString(vec![position(10.5, 200.0), position(200.25, 210.75)]),
                Some(object(&[("id", "f-0001"), ("label", "bed"), ("kind", "horizon")])),
            ),
            feature(
                Geometry::LineString(vec![position(620.0, 244.0), position(880.0, 251.5)]),
                Some(object(&[("id", "f-0002"), ("label", "bed"), ("kind", "horizon")])),
            ),
        ],
    );
    doc.schema = Some("gprinterp".into());
    doc.schema_version = Some("0.1".into());
    doc.date_modified = Some("2026-02-27T16:19:19+01:00".into());
    doc.source = Some(Source {
        id: Some("line_07_003".into()),
        revision_id: Some("9f2c1ab4e7d05836".into()),
        n_traces: Some(1200),
        n_samples: Some(2048),
        extra: Object::new(),
    });
    doc.coordinates = Some(Coordinates {
        space: Some("index2d".into()),
        convention: Some(Convention {
            origin: Some("upper-left".into()),
            indexing: Some("zero-based".into()),
            pixel_reference: Some("center".into()),
            axis_directions: Some(directions),
            extra: Object::new(),
        }),
        axes: Some(Axes {
            x: Some(x),
            y: Some(y),
            extra: Object::new(),
        }),
        extra: Object::new(),
    });
    doc
}

/// `value = t0 + index * dt`, evaluated in `f64` as a consumer does.
fn eval(m: &Mapping, index: f64) -> f64 {
    match m {
        Mapping::Regular { t0, dt } => f(*t0) + index * f(*dt),
        _ => panic!("only regular mappings are evaluated here"),
    }
}

#[test]
fn minimal_example_parses_and_is_valid() {
    let document = minimal();
    assert_eq!(document.key, "line_07_003");
    assert_eq!(document.features.len(), 2);

    let report = gprinterp::validate(&document);
    assert!(report.is_valid(), "unexpected errors: {:?}", report.errors);

    // It declares no axes, so it cannot be re-anchored -- the format calls
    // this valid but revision-bound.
    assert!(report
        .warnings
        .contains(&ValidationWarning::NotReanchorable));
}

#[test]
fn minimal_example_carries_both_a_line_and_a_point() {
    let document = minimal();
    assert!(matches!(
        document.features[0].geometry,
        Geometry::LineString(_)
    ));
    assert!(matches!(document.features[1].geometry, Geometry::Point(_)));
}

#[test]
fn recommended_example_is_valid_and_fully_annotated() {
    let document = recommended();
    let report = gprinterp::validate(&document);
    assert!(report.is_valid(), "unexpected errors: {:?}", report.errors);
    assert!(
        report.warnings.is_empty(),
        "unexpected warnings: {:?}",
        report.warnings
    );
}

#[test]
fn recommended_example_declares_usable_anchors_in_preference_order() {
    let document = recommended();
    let axes = document
        .coordinates
        .as_ref()
        .unwrap()
        .axes
        .as_ref()
        .unwrap();

    let x_anchors = axes.x.as_ref().unwrap().anchors();
    let names: Vec<&str> = x_anchors.iter().map(|a| a.name.as_str()).collect();
    assert_eq!(names, vec!["original_trace", "trace_time"]);
    for anchor in x_anchors {
        anchor
            .mapping()
            .unwrap_or_else(|e| panic!("x anchor '{}' is unusable: {e:?}", anchor.name));
    }

    let y_anchors = axes.y.as_ref().unwrap().anchors();
    assert_eq!(y_anchors.len(), 1);
    assert_eq!(y_anchors[0].name, "twtt");
    let twtt = y_anchors[0].mapping().unwrap();
    // t0 = -12.0, dt = 0.4: sample 30 is the zero crossing.
    assert_eq!(eval(&twtt, 0.0), -12.0);
    assert_eq!(eval(&twtt, 30.0), 0.0);
}

#[test]
fn recommended_example_groups_two_lines_into_one_layer() {
    // One Feature per physically separate line, sharing a label.
    let document = recommended();
    let layers = document.layers();
    assert_eq!(layers.len(), 1);
    assert_eq!(layers[0].0, Some("bed"));
    assert_eq!(layers[0].1.len(), 2);
    assert_eq!(layers[0].1[0].id(), Some("f-0001"));
    assert_eq!(layers[0].1[1].id(), Some("f-0002"));
}

#[test]
fn recommended_example_stays_in_bounds_and_minimal_warns_per_feature() {
    let report = gprinterp::validate(&minimal());
    assert_eq!(
        report.warnings,
        vec![
            ValidationWarning::NotReanchorable,
            ValidationWarning::MissingProperties { index: 0 },
            ValidationWarning::MissingProperties { index: 1 },
        ]
    );
}
