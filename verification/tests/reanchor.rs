//! Re-anchoring behaviour.
//!
//! The scenario throughout: an interpretation is drawn on revision A, the
//! radargram is reprocessed into revision B, and the picks must land on the
//! same physical reflector in B. Every test states what B did to A.
//!
//! The library leaves the floating-point evaluation and inversion of a
//! mapping to its caller; `resolve` below is that arithmetic, the
//! piecewise-linear interpolation of a tiepoint mapping.

use gprinterp::mapping::segment;
use gprinterp::reanchor;
use gprinterp::{
    AnchorAxis, Axes, Axis, Binary64, Coordinates, Document, Feature, Geometry, Mapping,
    Position, PrimaryAxis, ReanchorError, RevisionAxes, Tiepoint,
};
use serde_json::Value;

type Object = serde_json::Map<String, Value>;

fn b(x: f64) -> Binary64 {
    Binary64 { bits: x.to_bits() }
}

fn f(v: Binary64) -> f64 {
    f64::from_bits(v.bits)
}

/// Piecewise-linear interpolation through the segment the library picks.
fn interpolate(xs: &[f64], ys: &[f64], at: f64) -> f64 {
    let grid: Vec<Binary64> = xs.iter().map(|x| b(*x)).collect();
    let (lo, hi) = segment(&grid, b(at));
    let t = (at - xs[lo]) / (xs[hi] - xs[lo]);
    ys[lo] + t * (ys[hi] - ys[lo])
}

fn eval(m: &Mapping, index: f64) -> f64 {
    match m {
        Mapping::Regular { t0, dt } => f(*t0) + index * f(*dt),
        Mapping::Tiepoints { points } => {
            let xs: Vec<f64> = points.iter().map(|p| f(p.trace)).collect();
            let ys: Vec<f64> = points.iter().map(|p| f(p.x)).collect();
            interpolate(&xs, &ys, index)
        }
        Mapping::Explicit { values } => {
            let xs: Vec<f64> = (0..values.len()).map(|i| i as f64).collect();
            let ys: Vec<f64> = values.iter().map(|v| f(*v)).collect();
            interpolate(&xs, &ys, index)
        }
    }
}

fn invert(m: &Mapping, value: f64) -> f64 {
    match m {
        Mapping::Regular { t0, dt } => (value - f(*t0)) / f(*dt),
        Mapping::Tiepoints { points } => {
            let xs: Vec<f64> = points.iter().map(|p| f(p.x)).collect();
            let ys: Vec<f64> = points.iter().map(|p| f(p.trace)).collect();
            interpolate(&xs, &ys, value)
        }
        Mapping::Explicit { values } => {
            let xs: Vec<f64> = values.iter().map(|v| f(*v)).collect();
            let ys: Vec<f64> = (0..values.len()).map(|i| i as f64).collect();
            interpolate(&xs, &ys, value)
        }
    }
}

fn resolve(from: &Mapping, to: &Mapping, v: Binary64) -> Binary64 {
    b(invert(to, eval(from, f(v))))
}

fn run(document: &Document, target: &RevisionAxes) -> Result<gprinterp::ReanchorOutcome, ReanchorError> {
    reanchor(document, target, &resolve)
}

/// An `original_trace` anchor mapping index `0..=n-1` onto
/// `first..=first+n-1`, i.e. a revision whose first trace was originally
/// trace `first`. This is what subsetting produces.
fn original_trace(first: f64, n: f64) -> AnchorAxis {
    AnchorAxis {
        name: "original_trace".into(),
        unit: Some("index".into()),
        type_: Some("tiepoints".into()),
        points: Some(vec![
            Tiepoint {
                trace: b(0.0),
                x: b(first),
            },
            Tiepoint {
                trace: b(n - 1.0),
                x: b(first + n - 1.0),
            },
        ]),
        ..Default::default()
    }
}

fn regular(name: &str, unit: &str, t0: f64, dt: f64) -> AnchorAxis {
    AnchorAxis {
        name: name.into(),
        unit: Some(unit.into()),
        type_: Some("regular".into()),
        t0: Some(b(t0)),
        dt: Some(b(dt)),
        ..Default::default()
    }
}

fn twtt(t0: f64, dt: f64) -> AnchorAxis {
    regular("twtt", "ns", t0, dt)
}

/// The `y` anchor a revision has after antenna-separation correction: the
/// same shape as `twtt`, denoting a different physical quantity.
fn twtt_normal_incidence(t0: f64, dt: f64) -> AnchorAxis {
    regular("twtt_normal_incidence", "ns", t0, dt)
}

fn trace_time(first: f64, n: f64, per_trace: f64) -> AnchorAxis {
    AnchorAxis {
        name: "trace_time".into(),
        unit: Some("s".into()),
        type_: Some("tiepoints".into()),
        points: Some(vec![
            Tiepoint {
                trace: b(0.0),
                x: b(first),
            },
            Tiepoint {
                trace: b(n - 1.0),
                x: b(first + (n - 1.0) * per_trace),
            },
        ]),
        ..Default::default()
    }
}

fn properties() -> Object {
    let mut map = Object::new();
    map.insert("id".into(), Value::String("f-0001".into()));
    map.insert("label".into(), Value::String("bed".into()));
    map
}

fn axis(primary: Option<(&str, &str)>, anchors: Vec<AnchorAxis>) -> Axis {
    Axis {
        primary: primary.map(|(name, unit)| PrimaryAxis {
            name: Some(name.into()),
            unit: Some(unit.into()),
            extra: Object::new(),
        }),
        anchor: anchors,
        fallback: vec![],
        extra: Object::new(),
    }
}

fn document_with(key: &str, space: &str, x: Axis, y: Axis, coords: &[[f64; 2]]) -> Document {
    let geometry =
        Geometry::LineString(coords.iter().map(|c| Position(vec![b(c[0]), b(c[1])])).collect());
    Document {
        key: key.into(),
        features: vec![Feature {
            type_: "Feature".into(),
            geometry,
            properties: Some(properties()),
            extra: Object::new(),
        }],
        schema: None,
        schema_version: None,
        date_modified: None,
        source: None,
        coordinates: Some(Coordinates {
            space: Some(space.into()),
            convention: None,
            axes: Some(Axes {
                x: Some(x),
                y: Some(y),
                extra: Object::new(),
            }),
            extra: Object::new(),
        }),
        meta: None,
        extra: Object::new(),
    }
}

/// A one-line interpretation on a revision described by `x`/`y` anchors.
fn document(x: Vec<AnchorAxis>, y: Vec<AnchorAxis>, coords: &[[f64; 2]]) -> Document {
    document_with(
        "line_07_003",
        "index2d",
        axis(Some(("trace_index", "index")), x),
        axis(Some(("sample_index", "index")), y),
        coords,
    )
}

fn line_of(document: &Document) -> Vec<(f64, f64)> {
    match &document.features[0].geometry {
        Geometry::LineString(ps) => ps
            .iter()
            .map(|p| (f(p.x().unwrap()), f(p.y().unwrap())))
            .collect(),
        other => panic!("expected a LineString, got {}", other.type_string()),
    }
}

/// Compare re-anchored coordinates with a tolerance: a coordinate that is
/// mathematically an integer arrives as (for example) 10.000000000000028,
/// and picks are legitimately sub-pixel, so nothing is snapped.
fn assert_line_close(document: &Document, expected: &[(f64, f64)]) {
    let actual = line_of(document);
    assert_eq!(
        actual.len(),
        expected.len(),
        "vertex count differs: {actual:?} vs {expected:?}"
    );
    for (i, (got, want)) in actual.iter().zip(expected).enumerate() {
        assert!(
            (got.0 - want.0).abs() < 1e-9 && (got.1 - want.1).abs() < 1e-9,
            "vertex {i}: got {got:?}, expected {want:?}"
        );
    }
}

#[test]
fn identical_revisions_leave_coordinates_untouched() {
    let doc = document(
        vec![original_trace(0.0, 1200.0)],
        vec![twtt(-12.0, 0.4)],
        &[[10.0, 200.0], [500.0, 220.0]],
    );
    let target = RevisionAxes {
        x: vec![original_trace(0.0, 1200.0)],
        y: vec![twtt(-12.0, 0.4)],
    };

    let outcome = run(&doc, &target).unwrap();
    assert_line_close(&outcome.document, &[(10.0, 200.0), (500.0, 220.0)]);
    assert!(outcome.dropped.is_empty());
}

#[test]
fn a_subset_revision_shifts_picks_by_the_subset_offset() {
    // A was the full 1200-trace line; B subsets it to traces 200..1200, so
    // original trace 210 is index 10 in B.
    let doc = document(
        vec![original_trace(0.0, 1200.0)],
        vec![twtt(0.0, 0.4)],
        &[[210.0, 100.0], [700.0, 120.0]],
    );
    let target = RevisionAxes {
        x: vec![original_trace(200.0, 1000.0)],
        y: vec![twtt(0.0, 0.4)],
    };

    let outcome = run(&doc, &target).unwrap();
    assert_line_close(&outcome.document, &[(10.0, 100.0), (500.0, 120.0)]);
    assert_eq!(outcome.x_anchor, "original_trace");
}

#[test]
fn a_different_time_zero_shifts_picks_vertically() {
    // B crops 30 more samples from the top, so its t0 is 12 ns later. A pick
    // at sample 100 in A (twtt 40 ns) is sample 70 in B.
    let doc = document(
        vec![original_trace(0.0, 1200.0)],
        vec![twtt(0.0, 0.4)],
        &[[10.0, 100.0]],
    );
    let target = RevisionAxes {
        x: vec![original_trace(0.0, 1200.0)],
        y: vec![twtt(12.0, 0.4)],
    };

    let outcome = run(&doc, &target).unwrap();
    assert_line_close(&outcome.document, &[(10.0, 70.0)]);
    assert!(
        outcome.y_is_approximate,
        "a re-anchored y must never be presented as exact"
    );
}

#[test]
fn picks_outside_the_target_revision_are_dropped_not_clamped() {
    // B keeps only traces 500..1200. The pick starts at original trace 210,
    // which B does not contain.
    let doc = document(
        vec![original_trace(0.0, 1200.0)],
        vec![twtt(0.0, 0.4)],
        &[[210.0, 100.0], [700.0, 120.0]],
    );
    let target = RevisionAxes {
        x: vec![original_trace(500.0, 700.0)],
        y: vec![twtt(0.0, 0.4)],
    };

    let outcome = run(&doc, &target).unwrap();
    assert!(outcome.document.features.is_empty());
    assert_eq!(outcome.dropped.len(), 1);
    assert_eq!(outcome.dropped[0].id.as_deref(), Some("f-0001"));
    assert_eq!(outcome.dropped[0].label.as_deref(), Some("bed"));
}

#[test]
fn original_trace_is_preferred_when_both_x_anchors_are_available() {
    let doc = document(
        vec![original_trace(0.0, 1200.0), trace_time(1000.0, 1200.0, 0.1)],
        vec![twtt(0.0, 0.4)],
        &[[10.0, 100.0]],
    );
    let target = RevisionAxes {
        x: vec![original_trace(0.0, 1200.0), trace_time(1000.0, 1200.0, 0.1)],
        y: vec![twtt(0.0, 0.4)],
    };

    assert_eq!(run(&doc, &target).unwrap().x_anchor, "original_trace");
}

#[test]
fn trace_time_carries_the_mapping_when_original_trace_is_gone() {
    // B resampled onto a distance grid: its 600 traces span the same 120 s
    // window, so a pick 1/4 of the way along in A lands 1/4 of the way
    // along in B.
    let doc = document(
        vec![original_trace(0.0, 1200.0), trace_time(1000.0, 1200.0, 0.1)],
        vec![twtt(0.0, 0.4)],
        &[[300.0, 100.0]],
    );
    let target = RevisionAxes {
        x: vec![trace_time(1000.0, 600.0, 0.2)],
        y: vec![twtt(0.0, 0.4)],
    };

    let outcome = run(&doc, &target).unwrap();
    assert_eq!(outcome.x_anchor, "trace_time");
    assert_line_close(&outcome.document, &[(150.0, 100.0)]);
}

#[test]
fn no_shared_anchor_is_an_error_rather_than_a_silent_index_fallback() {
    let doc = document(
        vec![original_trace(0.0, 1200.0)],
        vec![twtt(0.0, 0.4)],
        &[[210.0, 100.0]],
    );
    let target = RevisionAxes {
        x: vec![trace_time(1000.0, 600.0, 0.2)],
        y: vec![twtt(0.0, 0.4)],
    };

    match run(&doc, &target) {
        Err(ReanchorError::NoSharedAnchor { axis, .. }) => assert_eq!(axis, "x"),
        other => panic!("expected NoSharedAnchor, got {other:?}"),
    }
}

#[test]
fn a_document_without_axes_cannot_be_reanchored() {
    let doc = Document {
        key: "line_07_003".into(),
        features: vec![Feature {
            type_: "Feature".into(),
            geometry: Geometry::LineString(vec![Position(vec![b(10.0), b(20.0)])]),
            properties: None,
            extra: Object::new(),
        }],
        schema: None,
        schema_version: None,
        date_modified: None,
        source: None,
        coordinates: None,
        meta: None,
        extra: Object::new(),
    };

    assert_eq!(
        run(&doc, &RevisionAxes::default()),
        Err(ReanchorError::NoCoordinates)
    );
}

#[test]
fn a_synthetic_anchor_is_refused_across_revisions() {
    let mut synthetic = trace_time(0.0, 1200.0, 1.0);
    synthetic.synthetic = true;

    let doc = document(vec![synthetic.clone()], vec![twtt(0.0, 0.4)], &[[10.0, 100.0]]);
    let target = RevisionAxes {
        x: vec![trace_time(0.0, 1200.0, 1.0)],
        y: vec![twtt(0.0, 0.4)],
    };

    match run(&doc, &target) {
        Err(ReanchorError::SyntheticOnly { axis, name }) => {
            assert_eq!(axis, "x");
            assert_eq!(name, "trace_time");
        }
        other => panic!("expected SyntheticOnly, got {other:?}"),
    }
}

#[test]
fn an_unusable_mapping_is_skipped_in_favour_of_a_usable_one() {
    // A non-monotone original_trace cannot be inverted, so selection must
    // fall through to trace_time rather than failing outright.
    let mut broken = original_trace(0.0, 1200.0);
    broken.points = Some(vec![
        Tiepoint {
            trace: b(0.0),
            x: b(100.0),
        },
        Tiepoint {
            trace: b(1199.0),
            x: b(50.0),
        },
    ]);

    let doc = document(
        vec![broken, trace_time(1000.0, 1200.0, 0.1)],
        vec![twtt(0.0, 0.4)],
        &[[300.0, 100.0]],
    );
    let target = RevisionAxes {
        x: vec![trace_time(1000.0, 1200.0, 0.1)],
        y: vec![twtt(0.0, 0.4)],
    };

    assert_eq!(run(&doc, &target).unwrap().x_anchor, "trace_time");
}

/// An antenna-separation-corrected revision does not share a `y` anchor
/// with an uncorrected one, and the refusal is what keeps the picks honest.
#[test]
fn a_corrected_revision_shares_no_y_anchor_with_an_uncorrected_one() {
    let drawn_on_uncorrected = document(
        vec![trace_time(1000.0, 100.0, 0.1)],
        vec![twtt(0.0, 0.4)],
        &[[10.0, 20.0], [50.0, 30.0]],
    );
    let corrected = RevisionAxes {
        x: vec![trace_time(1000.0, 100.0, 0.1)],
        y: vec![twtt_normal_incidence(0.0, 0.4)],
    };

    match reanchor::reanchor(&drawn_on_uncorrected, &corrected, &resolve) {
        Err(ReanchorError::NoSharedAnchor { axis, .. }) => assert_eq!(axis, "y"),
        other => panic!("expected the y axes to be incompatible, got {other:?}"),
    }

    // And the mirror: picks drawn on the corrected revision cannot be
    // carried back onto the uncorrected one either.
    let drawn_on_corrected = document(
        vec![trace_time(1000.0, 100.0, 0.1)],
        vec![twtt_normal_incidence(0.0, 0.4)],
        &[[10.0, 20.0]],
    );
    let uncorrected = RevisionAxes {
        x: vec![trace_time(1000.0, 100.0, 0.1)],
        y: vec![twtt(0.0, 0.4)],
    };
    assert!(matches!(
        reanchor::reanchor(&drawn_on_corrected, &uncorrected, &resolve),
        Err(ReanchorError::NoSharedAnchor { axis: "y", .. })
    ));
}

/// Two corrected revisions re-anchor through `twtt_normal_incidence`
/// normally, so the new name costs nothing where it is shared.
#[test]
fn two_corrected_revisions_reanchor_through_normal_incidence() {
    // B cropped 10 leading samples, which `t0` records.
    let drawn_on_a = document(
        vec![trace_time(1000.0, 100.0, 0.1)],
        vec![twtt_normal_incidence(0.0, 0.4)],
        &[[10.0, 20.0], [50.0, 30.0]],
    );
    let b_axes = RevisionAxes {
        x: vec![trace_time(1000.0, 100.0, 0.1)],
        y: vec![twtt_normal_incidence(4.0, 0.4)],
    };

    let outcome =
        reanchor::reanchor(&drawn_on_a, &b_axes, &resolve).expect("shared anchor on both axes");
    assert_eq!(outcome.y_anchor, "twtt_normal_incidence");
    assert_line_close(&outcome.document, &[(10.0, 10.0), (50.0, 20.0)]);
}

/// A corrected revision that also emits `twtt` regains a shared anchor
/// with an uncorrected one.
#[test]
fn a_corrected_revision_that_also_emits_twtt_can_be_reanchored() {
    let drawn_on_uncorrected = document(
        vec![trace_time(1000.0, 100.0, 0.1)],
        vec![twtt(0.0, 0.4)],
        &[[10.0, 20.0]],
    );
    let corrected_but_honest = RevisionAxes {
        x: vec![trace_time(1000.0, 100.0, 0.1)],
        // Its own grid, plus where those samples fall in recorded time.
        y: vec![twtt_normal_incidence(0.0, 0.4), twtt(0.0, 0.5)],
    };

    let outcome = reanchor::reanchor(&drawn_on_uncorrected, &corrected_but_honest, &resolve)
        .expect("twtt is shared");
    assert_eq!(
        outcome.y_anchor, "twtt",
        "the only anchor both sides offer is the recorded one"
    );
    // 20 samples x 0.4 ns = 8 ns, which is sample 16 at 0.5 ns.
    assert_line_close(&outcome.document, &[(10.0, 16.0)]);
}

/// Where both revisions offer both `y` anchors, `twtt_normal_incidence`
/// wins, and the two anchors are rigged to disagree.
#[test]
fn normal_incidence_is_preferred_where_both_anchors_are_shared() {
    let drawn_on_a = document(
        vec![trace_time(1000.0, 100.0, 0.1)],
        vec![twtt_normal_incidence(0.0, 0.4), twtt(0.0, 0.5)],
        &[[10.0, 20.0]],
    );
    let b_axes = RevisionAxes {
        x: vec![trace_time(1000.0, 100.0, 0.1)],
        y: vec![twtt_normal_incidence(0.0, 0.4), twtt(0.0, 0.25)],
    };

    let outcome = reanchor::reanchor(&drawn_on_a, &b_axes, &resolve).expect("both axes are shared");
    assert_eq!(outcome.y_anchor, "twtt_normal_incidence");
    // Through normal incidence: 20 x 0.4 ns = 8 ns, sample 20 of B's
    // identical grid. Through twtt it would have been sample 40.
    assert_line_close(&outcome.document, &[(10.0, 20.0)]);
}

/// Build a document on one `y` anchor list, with a regular `trace_time` `x`.
fn document_on(y_anchors: Vec<AnchorAxis>, points: &[[f64; 2]]) -> Document {
    document_with(
        "line-01",
        "index",
        axis(None, vec![regular("trace_time", "s", 0.0, 1.0)]),
        axis(None, y_anchors),
        points,
    )
}

#[test]
fn a_corrected_and_an_uncorrected_revision_relate_through_the_recording_clock() {
    // One revision has had a time-zero correction and the other has not, so
    // they share no travel-time axis at all, but both know where their first
    // sample sits on the original recording's clock.
    let dt = 1.586162;
    let corrected = document_on(
        vec![
            regular("twtt", "ns", 0.0, dt),
            regular("recording_time", "ns", 50.7572, dt),
        ],
        &[[10.0, 700.0], [40.0, 900.0]],
    );
    let uncorrected = RevisionAxes {
        x: vec![regular("trace_time", "s", 0.0, 1.0)],
        y: vec![regular("recording_time", "ns", 0.0, dt)],
    };

    let out = run(&corrected, &uncorrected).expect("relatable");
    assert_eq!(out.y_anchor, "recording_time");
    assert!(out.dropped.is_empty());

    // 50.7572 / 1.586162 = 32 samples, so every pick moves down by 32. The
    // tolerance is 1e-4 because the literals are rounded to six figures.
    let positions = out.document.features[0].geometry.positions();
    assert!(
        (f(positions[0].y().unwrap()) - 732.0).abs() < 1e-4,
        "{:?}",
        positions[0].y()
    );
    assert!((f(positions[1].y().unwrap()) - 932.0).abs() < 1e-4);
    // And x is untouched, because nothing about the traces changed.
    assert!((f(positions[0].x().unwrap()) - 10.0).abs() < 1e-9);
}

#[test]
fn a_shared_travel_time_axis_is_preferred_over_the_recording_clock() {
    let dt = 1.0;
    let doc = document_on(
        vec![
            regular("twtt", "ns", 0.0, dt),
            regular("recording_time", "ns", 50.0, dt),
        ],
        &[[10.0, 100.0]],
    );
    let target = RevisionAxes {
        x: vec![regular("trace_time", "s", 0.0, 1.0)],
        // Same crop, different time zero: the two disagree about travel
        // time by 20 ns and agree about the clock exactly.
        y: vec![
            regular("twtt", "ns", 20.0, dt),
            regular("recording_time", "ns", 50.0, dt),
        ],
    };

    let out = run(&doc, &target).expect("relatable");
    assert_eq!(out.y_anchor, "twtt", "physics over cropping");
    let y = f(out.document.features[0].geometry.positions()[0].y().unwrap());
    assert!((y - 80.0).abs() < 1e-9, "carried through twtt: {y}");
}

#[test]
fn the_document_is_carried_over_apart_from_its_features() {
    let mut doc = document(
        vec![original_trace(0.0, 1200.0)],
        vec![twtt(0.0, 0.4)],
        &[[210.0, 100.0]],
    );
    doc.schema = Some("gprinterp".into());
    let target = RevisionAxes {
        x: vec![original_trace(200.0, 1000.0)],
        y: vec![twtt(0.0, 0.4)],
    };
    let outcome = run(&doc, &target).unwrap();
    assert_eq!(outcome.document.key, doc.key);
    assert_eq!(outcome.document.schema, doc.schema);
    assert_eq!(outcome.document.coordinates, doc.coordinates);
    assert_eq!(
        outcome.document.features[0].properties,
        doc.features[0].properties
    );
}

#[test]
fn a_point_without_a_y_coordinate_drops_its_feature() {
    let mut doc = document(
        vec![original_trace(0.0, 1200.0)],
        vec![twtt(0.0, 0.4)],
        &[[10.0, 100.0]],
    );
    doc.features[0].geometry = Geometry::Point(Position(vec![b(10.0)]));
    let target = RevisionAxes {
        x: vec![original_trace(0.0, 1200.0)],
        y: vec![twtt(0.0, 0.4)],
    };
    let outcome = run(&doc, &target).unwrap();
    assert!(outcome.document.features.is_empty());
    assert_eq!(outcome.dropped[0].index, 0);
}

#[test]
fn a_synthetic_y_anchor_is_refused_too() {
    let mut synthetic = twtt(0.0, 0.4);
    synthetic.synthetic = true;
    let doc = document(
        vec![original_trace(0.0, 1200.0)],
        vec![twtt(0.0, 0.4)],
        &[[10.0, 100.0]],
    );
    let target = RevisionAxes {
        x: vec![original_trace(0.0, 1200.0)],
        y: vec![synthetic],
    };
    assert_eq!(
        run(&doc, &target),
        Err(ReanchorError::SyntheticOnly {
            axis: "y",
            name: "twtt".into()
        })
    );
}

#[test]
fn no_shared_anchor_lists_what_each_side_offers() {
    let doc = document(
        vec![original_trace(0.0, 1200.0)],
        vec![twtt(0.0, 0.4)],
        &[[10.0, 100.0]],
    );
    let target = RevisionAxes {
        x: vec![trace_time(0.0, 10.0, 1.0)],
        y: vec![twtt(0.0, 0.4)],
    };
    assert_eq!(
        run(&doc, &target),
        Err(ReanchorError::NoSharedAnchor {
            axis: "x",
            document_offers: vec!["original_trace".into()],
            revision_offers: vec!["trace_time".into()],
        })
    );
}

#[test]
fn a_recorded_anchor_is_used_when_a_more_preferred_one_is_synthetic() {
    // original_trace is shared but fabricated on the document's side;
    // trace_time is shared and recorded on both, so it carries the picks.
    let mut synthetic = original_trace(0.0, 1200.0);
    synthetic.synthetic = true;
    let doc = document(
        vec![synthetic, trace_time(1000.0, 1200.0, 0.5)],
        vec![twtt(0.0, 0.4)],
        &[[210.0, 100.0]],
    );
    let target = RevisionAxes {
        x: vec![original_trace(200.0, 1000.0), trace_time(1100.0, 1000.0, 0.5)],
        y: vec![twtt(0.0, 0.4)],
    };
    let out = run(&doc, &target).expect("trace_time is shared and recorded");
    assert_eq!(out.x_anchor, "trace_time");
    assert_eq!(out.y_anchor, "twtt");
    assert_line_close(&out.document, &[(10.0, 100.0)]);
}

#[test]
fn a_missing_y_anchor_is_reported_before_a_synthetic_x_anchor() {
    let mut synthetic = trace_time(0.0, 1200.0, 1.0);
    synthetic.synthetic = true;
    let doc = document(vec![synthetic], vec![twtt(0.0, 0.4)], &[[10.0, 100.0]]);
    let target = RevisionAxes {
        x: vec![trace_time(0.0, 1200.0, 1.0)],
        y: vec![twtt_normal_incidence(0.0, 0.4)],
    };
    match run(&doc, &target) {
        Err(ReanchorError::NoSharedAnchor { axis, .. }) => assert_eq!(axis, "y"),
        other => panic!("expected NoSharedAnchor, got {other:?}"),
    }
}
