//! Document validation.
//!
//! Split into errors and warnings deliberately. The format is permissive by
//! design, so most defects are reported without refusing the document; only
//! the conditions the format lists as fatal are fatal. Structural reading already
//! happened by the time this runs — a [`Document`] exists — so everything
//! here is semantic.

use vstd::prelude::*;

use crate::binary64::{encoding_of_u64, positive_zero, Binary64};
use crate::document::{string_view, AnchorAxis, Axis, Convention, Document, Feature, vec_view};
use crate::geometry::{referenced, Geometry, Position};
use crate::json::{json_object_strings, object_get_str, str_eq, string_entry, JsonObject};
use crate::mapping::{parts_give, str_view, MappingError};
use crate::reanchor::{declared_anchors, declared_axes};

verus! {

/// A condition that makes a document unusable.
#[derive(Debug, Clone, PartialEq)]
pub enum ValidationError {
    /// A `convention` value outside the fixed vocabulary.
    /// Fatal rather than a warning: silently accepting an unsupported
    /// origin would flip an interpretation vertically.
    UnsupportedConvention { field: &'static str, value: String, permitted: &'static str },
    /// A feature entry without `type: "Feature"`.
    NotAFeature { index: usize, found: String },
}

/// A defect that does not make the document unusable.
#[derive(Debug, Clone, PartialEq)]
pub enum ValidationWarning {
    MissingProperties { index: usize },
    MissingLabel { index: usize },
    MissingId { index: usize },
    DuplicateId { index: usize, id: String },
    /// A coordinate outside the shape declared in `source`.
    OutOfBounds { index: usize, axis: &'static str, value: Binary64, limit: u64 },
    /// An anchor mapping that cannot be used for re-anchoring.
    UnusableAnchor { axis: &'static str, name: String, reason: MappingError },
    /// The document carries no anchor axes, so it is only meaningful against
    /// the exact revision it was authored on.
    NotReanchorable,
    /// A geometry whose type this library does not model. It round-trips,
    /// but nothing can be computed from it.
    UnknownGeometryType { index: usize, type_string: String },
}

/// The outcome of validating a document.
#[derive(Debug, Clone, PartialEq)]
pub struct Report {
    pub errors: Vec<ValidationError>,
    pub warnings: Vec<ValidationWarning>,
}

/// A [`ValidationError`] with its text as characters.
pub enum ErrorView {
    UnsupportedConvention { field: Seq<char>, value: Seq<char>, permitted: Seq<char> },
    NotAFeature { index: int, found: Seq<char> },
}

/// A [`ValidationWarning`] with its text as characters; an unusable
/// anchor's reason is stated separately.
pub enum WarningView {
    MissingProperties { index: int },
    MissingLabel { index: int },
    MissingId { index: int },
    DuplicateId { index: int, id: Seq<char> },
    OutOfBounds { index: int, axis: Seq<char>, value: Binary64, limit: u64 },
    UnusableAnchor { axis: Seq<char>, name: Seq<char> },
    NotReanchorable,
    UnknownGeometryType { index: int, type_string: Seq<char> },
}

impl View for ValidationError {
    type V = ErrorView;

    open spec fn view(&self) -> ErrorView {
        match self {
            ValidationError::UnsupportedConvention { field, value, permitted } => {
                ErrorView::UnsupportedConvention { field: field@, value: value@, permitted: permitted@ }
            },
            ValidationError::NotAFeature { index, found } => ErrorView::NotAFeature {
                index: *index as int,
                found: found@,
            },
        }
    }
}

impl View for ValidationWarning {
    type V = WarningView;

    open spec fn view(&self) -> WarningView {
        match self {
            ValidationWarning::MissingProperties { index } => WarningView::MissingProperties {
                index: *index as int,
            },
            ValidationWarning::MissingLabel { index } => WarningView::MissingLabel {
                index: *index as int,
            },
            ValidationWarning::MissingId { index } => WarningView::MissingId { index: *index as int },
            ValidationWarning::DuplicateId { index, id } => WarningView::DuplicateId {
                index: *index as int,
                id: id@,
            },
            ValidationWarning::OutOfBounds { index, axis, value, limit } => WarningView::OutOfBounds {
                index: *index as int,
                axis: axis@,
                value: *value,
                limit: *limit,
            },
            ValidationWarning::UnusableAnchor { axis, name, .. } => WarningView::UnusableAnchor {
                axis: axis@,
                name: name@,
            },
            ValidationWarning::NotReanchorable => WarningView::NotReanchorable,
            ValidationWarning::UnknownGeometryType { index, type_string } => {
                WarningView::UnknownGeometryType { index: *index as int, type_string: type_string@ }
            },
        }
    }
}

impl Default for Report {
    /// The empty report: no errors, no warnings.
    fn default() -> (r: Report)
        ensures
            r.errors@.len() == 0,
            r.warnings@.len() == 0,
    {
        Report { errors: Vec::new(), warnings: Vec::new() }
    }
}

impl Report {
    /// A document is valid when nothing fatal was found.
    pub fn is_valid(&self) -> (r: bool)
        ensures
            r == (self.errors@.len() == 0),
    {
        self.errors.len() == 0
    }
}

/// The views of a list of errors.
pub open spec fn error_views(errors: Seq<ValidationError>) -> Seq<ErrorView> {
    errors.map_values(|e: ValidationError| e@)
}

/// The views of a list of warnings.
pub open spec fn warning_views(warnings: Seq<ValidationWarning>) -> Seq<WarningView> {
    warnings.map_values(|w: ValidationWarning| w@)
}

/// The error for one convention field, if its value is not the permitted one.
pub open spec fn convention_field_error(
    field: Seq<char>,
    value: Option<Seq<char>>,
    permitted: Seq<char>,
) -> Seq<ErrorView> {
    match value {
        Some(v) => if v != permitted {
            seq![ErrorView::UnsupportedConvention { field, value: v, permitted }]
        } else {
            Seq::empty()
        },
        None => Seq::empty(),
    }
}

/// The string stated for one axis in `axis_directions`, if any.
pub open spec fn direction_entry(directions: Option<JsonObject>, axis: Seq<char>) -> Option<
    Seq<char>,
> {
    match directions {
        Some(o) => string_entry(o, axis),
        None => None,
    }
}

/// The errors a stated convention gives, in field order.
pub open spec fn stated_convention_errors(conv: Convention) -> Seq<ErrorView> {
    convention_field_error("origin"@, string_view(conv.origin), "upper-left"@)
        + convention_field_error("indexing"@, string_view(conv.indexing), "zero-based"@)
        + convention_field_error("pixel_reference"@, string_view(conv.pixel_reference), "center"@)
        + convention_field_error(
        "axis_directions.x"@,
        direction_entry(conv.axis_directions, "x"@),
        "right"@,
    ) + convention_field_error(
        "axis_directions.y"@,
        direction_entry(conv.axis_directions, "y"@),
        "down"@,
    )
}

/// The errors the document's convention gives, in field order.
pub open spec fn convention_errors(document: Document) -> Seq<ErrorView> {
    match document.coordinates {
        Some(c) => match c.convention {
            Some(conv) => stated_convention_errors(conv),
            None => Seq::empty(),
        },
        None => Seq::empty(),
    }
}

/// The errors of the first `n` features: one for each whose `type` is not
/// `"Feature"`.
pub open spec fn feature_errors(features: Seq<Feature>, n: int) -> Seq<ErrorView>
    decreases n,
{
    if n <= 0 {
        Seq::empty()
    } else {
        let f = features[n - 1];
        feature_errors(features, n - 1) + feature_error(features, n - 1)
    }
}

/// A coordinate is out of the declared range `[0, limit)` when it is below
/// zero or at least `limit as f64`; a NaN is neither.
pub open spec fn out_of_bounds(value: Binary64, limit: u64) -> bool {
    value.less_than(positive_zero()) || (Binary64 { bits: encoding_of_u64(limit) }).at_most(value)
}

/// The bound warning for one coordinate of feature `index`.
pub open spec fn bound_warning(
    index: int,
    axis: Seq<char>,
    value: Option<Binary64>,
    limit: Option<u64>,
) -> Seq<WarningView> {
    match (value, limit) {
        (Some(v), Some(l)) => if out_of_bounds(v, l) {
            seq![WarningView::OutOfBounds { index, axis, value: v, limit: l }]
        } else {
            Seq::empty()
        },
        _ => Seq::empty(),
    }
}

/// The `x` of a coordinate tuple, if it has one.
pub open spec fn tuple_x(p: Position) -> Option<Binary64> {
    if p.0@.len() > 0 {
        Some(p.0@[0])
    } else {
        None
    }
}

/// The `y` of a coordinate tuple, if it has one.
pub open spec fn tuple_y(p: Position) -> Option<Binary64> {
    if p.0@.len() > 1 {
        Some(p.0@[1])
    } else {
        None
    }
}

/// The bound warnings of the first `n` positions of feature `index`: for
/// each position, `x` against `n_traces`, then `y` against `n_samples`.
pub open spec fn bound_warnings(
    index: int,
    positions: Seq<Position>,
    n: int,
    n_traces: Option<u64>,
    n_samples: Option<u64>,
) -> Seq<WarningView>
    decreases n,
{
    if n <= 0 {
        Seq::empty()
    } else {
        let p = positions[n - 1];
        bound_warnings(index, positions, n - 1, n_traces, n_samples) + bound_warning(
            index,
            "x"@,
            tuple_x(p),
            n_traces,
        ) + bound_warning(index, "y"@, tuple_y(p), n_samples)
    }
}

/// The ids of the first `n` features, where they have one.
pub open spec fn ids_before(features: Seq<Feature>, n: int) -> Seq<Option<Seq<char>>> {
    features.subrange(0, n).map_values(|f: Feature| f.id_spec())
}

/// The warnings about feature `k`'s properties: missing properties, or a
/// missing label and a missing or repeated id.
pub open spec fn property_warnings(features: Seq<Feature>, k: int) -> Seq<WarningView> {
    let f = features[k];
    if f.properties is None {
        seq![WarningView::MissingProperties { index: k }]
    } else {
        (if f.label_spec() is None {
            seq![WarningView::MissingLabel { index: k }]
        } else {
            Seq::empty()
        }) + match f.id_spec() {
            None => seq![WarningView::MissingId { index: k }],
            Some(id) => if ids_before(features, k).contains(Some(id)) {
                seq![WarningView::DuplicateId { index: k, id }]
            } else {
                Seq::empty()
            },
        }
    }
}

/// All warnings about feature `k`, in the order they are reported.
pub open spec fn warnings_for_feature(
    features: Seq<Feature>,
    k: int,
    n_traces: Option<u64>,
    n_samples: Option<u64>,
) -> Seq<WarningView> {
    let f = features[k];
    property_warnings(features, k) + (if f.geometry is Unknown {
        seq![WarningView::UnknownGeometryType { index: k, type_string: f.geometry.type_string_spec() }]
    } else {
        Seq::empty()
    }) + bound_warnings(
        k,
        f.geometry.all_positions(),
        f.geometry.all_positions().len() as int,
        n_traces,
        n_samples,
    )
}

/// The warnings about the first `n` features.
pub open spec fn feature_warnings(
    features: Seq<Feature>,
    n: int,
    n_traces: Option<u64>,
    n_samples: Option<u64>,
) -> Seq<WarningView>
    decreases n,
{
    if n <= 0 {
        Seq::empty()
    } else {
        feature_warnings(features, n - 1, n_traces, n_samples) + warnings_for_feature(
            features,
            n - 1,
            n_traces,
            n_samples,
        )
    }
}

/// The declared shape, if any: `(n_traces, n_samples)`.
pub open spec fn declared_shape(document: Document) -> (Option<u64>, Option<u64>) {
    match document.source {
        Some(s) => (s.n_traces, s.n_samples),
        None => (None, None),
    }
}

/// The anchors of one axis, tagged with the axis name.
pub open spec fn tagged(axis: Seq<char>, anchors: Option<Axis>) -> Seq<(Seq<char>, AnchorAxis)> {
    match anchors {
        Some(a) => a.anchors_spec().map_values(|anchor: AnchorAxis| (axis, anchor)),
        None => Seq::empty(),
    }
}

/// Every declared anchor, `x` before `y`.
pub open spec fn all_anchors(document: Document) -> Seq<(Seq<char>, AnchorAxis)> {
    match declared_axes(document) {
        Some(axes) => tagged("x"@, axes.x) + tagged("y"@, axes.y),
        None => Seq::empty(),
    }
}

/// The declared anchors whose mapping is unusable, in order.
pub open spec fn unusable_anchors(document: Document) -> Seq<(Seq<char>, AnchorAxis)> {
    all_anchors(document).filter(|e: (Seq<char>, AnchorAxis)| !e.1.usable())
}

/// `reason` is the error the anchor's mapping fields give.
pub open spec fn anchor_refuses(anchor: AnchorAxis, reason: MappingError) -> bool {
    parts_give(
        string_view(anchor.type_),
        anchor.t0,
        anchor.dt,
        vec_view(anchor.points),
        vec_view(anchor.values),
        Err(reason),
    )
}

/// The warnings about anchors: one per unusable anchor, or a single
/// `NotReanchorable` when no anchor is declared at all.
pub open spec fn anchor_warnings_are(document: Document, ws: Seq<ValidationWarning>) -> bool {
    if all_anchors(document).len() == 0 {
        warning_views(ws) == seq![WarningView::NotReanchorable]
    } else {
        let bad = unusable_anchors(document);
        &&& ws.len() == bad.len()
        &&& forall|i: int|
            0 <= i < ws.len() ==> (#[trigger] ws[i] matches ValidationWarning::UnusableAnchor {
                axis,
                name,
                reason,
            } && axis@ == bad[i].0 && name@ == bad[i].1.name@ && anchor_refuses(bad[i].1, reason))
    }
}

/// How many warnings the anchors give.
pub open spec fn anchor_warning_count(document: Document) -> int {
    if all_anchors(document).len() == 0 {
        1
    } else {
        unusable_anchors(document).len() as int
    }
}

const PERMITTED_ORIGIN: &'static str = "upper-left";

const PERMITTED_INDEXING: &'static str = "zero-based";

const PERMITTED_PIXEL_REFERENCE: &'static str = "center";

const PERMITTED_X_DIRECTION: &'static str = "right";

const PERMITTED_Y_DIRECTION: &'static str = "down";

fn check_convention_field(
    field: &'static str,
    value: Option<&str>,
    permitted: &'static str,
    report: &mut Report,
)
    ensures
        final(report).warnings == old(report).warnings,
        error_views(final(report).errors@) == error_views(old(report).errors@)
            + convention_field_error(field@, str_view(value), permitted@),
{
    let ghost before = report.errors@;
    if let Some(value) = value {
        if !str_eq(value, permitted) {
            report.errors.push(
                ValidationError::UnsupportedConvention {
                    field,
                    value: value.to_string(),
                    permitted,
                },
            );
            assert(error_views(report.errors@) =~= error_views(before) + convention_field_error(
                field@,
                Some(value@),
                permitted@,
            ));
            return;
        }
    }
    assert(error_views(report.errors@) =~= error_views(before) + convention_field_error(
        field@,
        str_view(value),
        permitted@,
    ));
}

fn stated_text(s: &Option<String>) -> (r: Option<&str>)
    ensures
        str_view(r) == string_view(*s),
{
    match s {
        Some(s) => Some(s.as_str()),
        None => None,
    }
}

fn direction<'a>(directions: &'a Option<JsonObject>, axis: &str) -> (r: Option<&'a str>)
    ensures
        str_view(r) == direction_entry(*directions, axis@),
{
    match directions {
        Some(o) => object_get_str(o, axis),
        None => None,
    }
}

fn check_convention(convention: &Convention, report: &mut Report)
    ensures
        final(report).warnings == old(report).warnings,
        error_views(final(report).errors@) == error_views(old(report).errors@)
            + stated_convention_errors(*convention),
{
    proof {
        reveal_strlit("origin");
        reveal_strlit("indexing");
        reveal_strlit("pixel_reference");
        reveal_strlit("axis_directions.x");
        reveal_strlit("axis_directions.y");
        reveal_strlit("upper-left");
        reveal_strlit("zero-based");
        reveal_strlit("center");
        reveal_strlit("right");
        reveal_strlit("down");
        reveal_strlit("x");
        reveal_strlit("y");
    }
    let ghost start = error_views(report.errors@);
    check_convention_field("origin", stated_text(&convention.origin), PERMITTED_ORIGIN, report);
    check_convention_field(
        "indexing",
        stated_text(&convention.indexing),
        PERMITTED_INDEXING,
        report,
    );
    check_convention_field(
        "pixel_reference",
        stated_text(&convention.pixel_reference),
        PERMITTED_PIXEL_REFERENCE,
        report,
    );
    check_convention_field(
        "axis_directions.x",
        direction(&convention.axis_directions, "x"),
        PERMITTED_X_DIRECTION,
        report,
    );
    check_convention_field(
        "axis_directions.y",
        direction(&convention.axis_directions, "y"),
        PERMITTED_Y_DIRECTION,
        report,
    );
    assert(error_views(report.errors@) =~= start + stated_convention_errors(*convention));
}

/// `ws` reports exactly the anchors of `bad`, in order.
pub open spec fn reports_unusable(
    ws: Seq<ValidationWarning>,
    bad: Seq<(Seq<char>, AnchorAxis)>,
) -> bool {
    &&& ws.len() == bad.len()
    &&& forall|i: int|
        0 <= i < ws.len() ==> (#[trigger] ws[i] matches ValidationWarning::UnusableAnchor {
            axis,
            name,
            reason,
        } && axis@ == bad[i].0 && name@ == bad[i].1.name@ && anchor_refuses(bad[i].1, reason))
}

#[verifier::loop_isolation(false)]
fn check_axis_anchors(
    label: &'static str,
    axis: &Option<Axis>,
    report: &mut Report,
) -> (any: bool)
    ensures
        final(report).errors == old(report).errors,
        final(report).warnings@.len() >= old(report).warnings@.len(),
        final(report).warnings@.subrange(0, old(report).warnings@.len() as int) == old(
            report,
        ).warnings@,
        reports_unusable(
            final(report).warnings@.subrange(
                old(report).warnings@.len() as int,
                final(report).warnings@.len() as int,
            ),
            tagged(label@, *axis).filter(|e: (Seq<char>, AnchorAxis)| !e.1.usable()),
        ),
        any == (tagged(label@, *axis).len() > 0),
{
    let ghost start = report.warnings@.len() as int;
    let ghost pred = |e: (Seq<char>, AnchorAxis)| !e.1.usable();
    let axis = match axis {
        Some(a) => a,
        None => {
            assert(report.warnings@.subrange(start, start) =~= Seq::<ValidationWarning>::empty());
            assert(tagged(label@, None).filter(pred) =~= Seq::empty()) by {
                reveal(Seq::filter);
            }
            return false;
        },
    };
    let anchors = axis.anchors();
    let ghost all = tagged(label@, Some(*axis));
    assert(all.len() == anchors@.len());
    let mut i: usize = 0;
    while i < anchors.len()
        invariant
            i <= anchors@.len(),
            all == tagged(label@, Some(*axis)),
            all.len() == anchors@.len(),
            forall|j: int| 0 <= j < all.len() ==> #[trigger] all[j] == (label@, anchors@[j]),
            report.errors == old(report).errors,
            start == old(report).warnings@.len(),
            report.warnings@.len() >= start,
            report.warnings@.subrange(0, start) == old(report).warnings@,
            reports_unusable(
                report.warnings@.subrange(start, report.warnings@.len() as int),
                all.subrange(0, i as int).filter(pred),
            ),
        decreases anchors@.len() - i,
    {
        let anchor = &anchors[i];
        let ghost before = report.warnings@;
        proof {
            assert(all.subrange(0, i + 1) == all.subrange(0, i as int).push(all[i as int]));
            all.subrange(0, i as int).lemma_filter_push(all[i as int], pred);
        }
        let ghost bad = all.subrange(0, i as int).filter(pred);
        assert(all[i as int] == (label@, anchors@[i as int]));
        match anchor.mapping() {
            Err(error) => {
                let name = anchor.name.clone();
                let w = ValidationWarning::UnusableAnchor { axis: label, name, reason: error };
                report.warnings.push(w);
                proof {
                    let old_ws = before.subrange(start, before.len() as int);
                    let new_ws = report.warnings@.subrange(start, report.warnings@.len() as int);
                    assert(report.warnings@.subrange(0, start) == before.subrange(0, start));
                    assert(new_ws == old_ws.push(w));
                    assert(pred(all[i as int]));
                    assert(all.subrange(0, i + 1).filter(pred) == bad.push(all[i as int]));
                    assert(anchor_refuses(all[i as int].1, error));
                    assert forall|j: int| 0 <= j < new_ws.len() implies (#[trigger] new_ws[j] matches ValidationWarning::UnusableAnchor {
                        axis,
                        name,
                        reason,
                    } && axis@ == bad.push(all[i as int])[j].0 && name@ == bad.push(all[i as int])[j].1.name@
                        && anchor_refuses(bad.push(all[i as int])[j].1, reason)) by {
                        if j < old_ws.len() {
                            assert(new_ws[j] == old_ws[j]);
                        }
                    }
                }
            },
            Ok(_) => {
                assert(!pred(all[i as int]));
                assert(all.subrange(0, i + 1).filter(pred) == bad);
            },
        }
        i = i + 1;
    }
    assert(all.subrange(0, all.len() as int) == all);
    anchors.len() > 0
}

fn check_anchors(document: &Document, report: &mut Report)
    ensures
        final(report).errors == old(report).errors,
        final(report).warnings@.len() == old(report).warnings@.len() + anchor_warning_count(
            *document,
        ),
        final(report).warnings@.subrange(0, old(report).warnings@.len() as int) == old(
            report,
        ).warnings@,
        anchor_warnings_are(
            *document,
            final(report).warnings@.subrange(
                old(report).warnings@.len() as int,
                final(report).warnings@.len() as int,
            ),
        ),
{
    let ghost start = report.warnings@.len() as int;
    let axes = match &document.coordinates {
        Some(c) => match &c.axes {
            Some(a) => a,
            None => {
                report.warnings.push(ValidationWarning::NotReanchorable);
                assert(report.warnings@.subrange(start, start + 1) =~= seq![ValidationWarning::NotReanchorable]);
                assert(warning_views(seq![ValidationWarning::NotReanchorable]) =~= seq![WarningView::NotReanchorable]);
                return;
            },
        },
        None => {
            report.warnings.push(ValidationWarning::NotReanchorable);
            assert(report.warnings@.subrange(start, start + 1) =~= seq![ValidationWarning::NotReanchorable]);
            assert(warning_views(seq![ValidationWarning::NotReanchorable]) =~= seq![WarningView::NotReanchorable]);
            return;
        },
    };
    let ghost pred = |e: (Seq<char>, AnchorAxis)| !e.1.usable();
    let ghost xs = tagged("x"@, axes.x);
    let ghost ys = tagged("y"@, axes.y);
    let any_x = check_axis_anchors("x", &axes.x, report);
    let ghost mid = report.warnings@.len() as int;
    let any_y = check_axis_anchors("y", &axes.y, report);
    proof {
        reveal_strlit("x");
        reveal_strlit("y");
        Seq::filter_distributes_over_add(xs, ys, pred);
        let w = report.warnings@;
        assert(w.subrange(start, mid) =~= w.subrange(0, mid).subrange(start, mid));
        let added = w.subrange(start, w.len() as int);
        assert(added =~= w.subrange(start, mid) + w.subrange(mid, w.len() as int));
        assert(all_anchors(*document) == xs + ys);
        assert(unusable_anchors(*document) == xs.filter(pred) + ys.filter(pred));
        assert(w.subrange(0, start) =~= w.subrange(0, mid).subrange(0, start));
    }
    if !any_x && !any_y {
        let ghost before = report.warnings@;
        report.warnings.push(ValidationWarning::NotReanchorable);
        proof {
            assert(xs.len() == 0 && ys.len() == 0);
            assert(xs.filter(pred) =~= Seq::empty()) by {
                reveal(Seq::filter);
            }
            assert(ys.filter(pred) =~= Seq::empty()) by {
                reveal(Seq::filter);
            }
            assert(before.len() == start);
            assert(report.warnings@.subrange(start, report.warnings@.len() as int) =~= seq![
                ValidationWarning::NotReanchorable,
            ]);
            assert(warning_views(seq![ValidationWarning::NotReanchorable]) =~= seq![WarningView::NotReanchorable]);
            assert(report.warnings@.subrange(0, start) == before.subrange(0, start));
        }
    }
}

/// `longer` is `shorter` with warnings appended.
pub open spec fn appended(longer: Seq<ValidationWarning>, shorter: Seq<ValidationWarning>) -> bool {
    longer.len() >= shorter.len() && longer.subrange(0, shorter.len() as int) == shorter
}

proof fn lemma_appended_transitive(
    a: Seq<ValidationWarning>,
    b: Seq<ValidationWarning>,
    c: Seq<ValidationWarning>,
)
    requires
        appended(a, b),
        appended(b, c),
    ensures
        appended(a, c),
{
    assert(a.subrange(0, c.len() as int) =~= a.subrange(0, b.len() as int).subrange(0, c.len() as int));
}

fn check_bound(
    index: usize,
    axis: &'static str,
    value: Option<Binary64>,
    limit: Option<u64>,
    report: &mut Report,
)
    ensures
        final(report).errors == old(report).errors,
        appended(final(report).warnings@, old(report).warnings@),
        warning_views(final(report).warnings@) == warning_views(old(report).warnings@)
            + bound_warning(index as int, axis@, value, limit),
{
    let ghost before = report.warnings@;
    if let (Some(value), Some(limit)) = (value, limit) {
        if value.lt(&Binary64::zero()) || Binary64::from_u64(limit).le(&value) {
            report.warnings.push(ValidationWarning::OutOfBounds { index, axis, value, limit });
            assert(report.warnings@.subrange(0, before.len() as int) =~= before);
            assert(warning_views(report.warnings@) =~= warning_views(before) + bound_warning(
                index as int,
                axis@,
                Some(value),
                Some(limit),
            ));
            return;
        }
    }
    assert(warning_views(report.warnings@) =~= warning_views(before) + bound_warning(
        index as int,
        axis@,
        value,
        limit,
    ));
    assert(report.warnings@.subrange(0, before.len() as int) =~= before);
}

fn push_warning(report: &mut Report, w: ValidationWarning)
    ensures
        final(report).errors == old(report).errors,
        final(report).warnings@ == old(report).warnings@.push(w),
        appended(final(report).warnings@, old(report).warnings@),
        warning_views(final(report).warnings@) == warning_views(old(report).warnings@).push(w@),
{
    let ghost before = report.warnings@;
    report.warnings.push(w);
    assert(report.warnings@.subrange(0, before.len() as int) =~= before);
    assert(warning_views(report.warnings@) =~= warning_views(before).push(w@));
}

/// The characters of each id seen.
pub open spec fn id_views(ids: Seq<&str>) -> Seq<Seq<char>> {
    ids.map_values(|s: &str| s@)
}

fn seen_before(seen: &Vec<&str>, id: &str) -> (r: bool)
    ensures
        r == id_views(seen@).contains(id@),
{
    let mut i: usize = 0;
    while i < seen.len()
        invariant
            i <= seen@.len(),
            forall|j: int| 0 <= j < i ==> id_views(seen@)[j] != id@,
        decreases seen@.len() - i,
    {
        if str_eq(seen[i], id) {
            assert(id_views(seen@)[i as int] == id@);
            return true;
        }
        i = i + 1;
    }
    false
}


#[verifier::loop_isolation(false)]
fn check_properties<'a>(
    fs: Ghost<Seq<Feature>>,
    k: usize,
    feature: &'a Feature,
    seen: &mut Vec<&'a str>,
    report: &mut Report,
)
    requires
        k < fs@.len(),
        *feature == fs@[k as int],
        forall|id: Seq<char>| id_views(old(seen)@).contains(id) <==> ids_before(fs@, k as int).contains(Some(id)),
    ensures
        final(report).errors == old(report).errors,
        appended(final(report).warnings@, old(report).warnings@),
        warning_views(final(report).warnings@) == warning_views(old(report).warnings@)
            + property_warnings(fs@, k as int),
        forall|id: Seq<char>| id_views(final(seen)@).contains(id) <==> ids_before(fs@, k + 1).contains(Some(id)),
{
    let ghost fs = fs@;
    let ghost raw_k = report.warnings@;
    let ghost warnings_k = warning_views(report.warnings@);
    let ghost seen_k = seen@;
    let ghost mut added: Option<Seq<char>> = None;
    match &feature.properties {
        None => {
            push_warning(report, ValidationWarning::MissingProperties { index: k });
        },
        Some(_) => {
            if feature.label().is_none() {
                push_warning(report, ValidationWarning::MissingLabel { index: k });
            }
            let ghost raw_l = report.warnings@;
            assert(appended(raw_l, raw_k)) by {
                assert(raw_l.subrange(0, raw_k.len() as int) =~= raw_k);
            }
            match feature.id() {
                None => {
                    push_warning(report, ValidationWarning::MissingId { index: k });
                    proof { lemma_appended_transitive(report.warnings@, raw_l, raw_k); }
                },
                Some(id) => {
                    if seen_before(seen, id) {
                        push_warning(
                            report,
                            ValidationWarning::DuplicateId { index: k, id: id.to_string() },
                        );
                        proof { lemma_appended_transitive(report.warnings@, raw_l, raw_k); }
                    } else {
                        seen.push(id);
                        proof {
                            added = Some(id@);
                        }
                    }
                },
            }
        },
    }
    assert(appended(report.warnings@, raw_k)) by {
        if report.warnings@.len() == raw_k.len() {
            assert(report.warnings@ == raw_k);
            assert(report.warnings@.subrange(0, raw_k.len() as int) =~= raw_k);
        }
    }
    assert(warning_views(report.warnings@) =~= warnings_k + property_warnings(fs, k as int));
    assert(match added {
        None => seen@ == seen_k,
        Some(a) => id_views(seen@) == id_views(seen_k).push(a) && fs[k as int].id_spec() == Some(a),
    }) by {
        if added is Some {
            assert(id_views(seen@) =~= id_views(seen_k).push(added.unwrap()));
        }
    }
    proof {
        assert(ids_before(fs, k + 1) == ids_before(fs, k as int).push(fs[k as int].id_spec())) by {
            assert(fs.subrange(0, k + 1) == fs.subrange(0, k as int).push(fs[k as int]));
        }
        assert forall|id: Seq<char>| id_views(seen@).contains(id) <==> ids_before(
            fs,
            k + 1,
        ).contains(Some(id)) by {
            let old_ids = ids_before(fs, k as int);
            let new_ids = ids_before(fs, k + 1);
            if id_views(seen@).contains(id) {
                if id_views(seen_k).contains(id) {
                    let j = choose|j: int| 0 <= j < old_ids.len() && old_ids[j] == Some(id);
                    assert(new_ids[j] == Some(id));
                } else {
                    let m = choose|m: int| 0 <= m < seen@.len() && id_views(seen@)[m] == id;
                    if m < seen_k.len() {
                        assert(id_views(seen_k)[m] == id);
                    }
                    assert(new_ids[k as int] == Some(id));
                }
            }
            if new_ids.contains(Some(id)) {
                let j = choose|j: int| 0 <= j < new_ids.len() && new_ids[j] == Some(id);
                if j < k {
                    assert(old_ids[j] == Some(id));
                    assert(id_views(seen_k).contains(id));
                    let m = choose|m: int| 0 <= m < seen_k.len() && id_views(seen_k)[m] == id;
                    assert(id_views(seen@)[m] == id);
                } else {
                    if !id_views(seen_k).contains(id) {
                        assert(added is Some);
                        assert(id_views(seen@)[seen_k.len() as int] == id);
                    } else {
                        let m = choose|m: int| 0 <= m < seen_k.len() && id_views(seen_k)[m] == id;
                        assert(id_views(seen@)[m] == id);
                    }
                }
            }
        }
    }
}

/// The error feature `k` gives, if its `type` is not `"Feature"`.
pub open spec fn feature_error(features: Seq<Feature>, k: int) -> Seq<ErrorView> {
    if features[k].type_@ != "Feature"@ {
        seq![ErrorView::NotAFeature { index: k, found: features[k].type_@ }]
    } else {
        Seq::empty()
    }
}

#[verifier::loop_isolation(false)]
#[verifier::spinoff_prover]
#[verifier::rlimit(40)]
fn check_feature<'a>(
    fs: Ghost<Seq<Feature>>,
    k: usize,
    feature: &'a Feature,
    seen: &mut Vec<&'a str>,
    n_traces: Option<u64>,
    n_samples: Option<u64>,
    report: &mut Report,
)
    requires
        k < fs@.len(),
        *feature == fs@[k as int],
        forall|id: Seq<char>| id_views(old(seen)@).contains(id) <==> ids_before(fs@, k as int).contains(Some(id)),
    ensures
        error_views(final(report).errors@) == error_views(old(report).errors@) + feature_error(fs@, k as int),
        appended(final(report).warnings@, old(report).warnings@),
        warning_views(final(report).warnings@) == warning_views(old(report).warnings@)
            + warnings_for_feature(fs@, k as int, n_traces, n_samples),
        forall|id: Seq<char>| id_views(final(seen)@).contains(id) <==> ids_before(fs@, k + 1).contains(Some(id)),
{
    let ghost raw_k = report.warnings@;
    let ghost warnings_k = warning_views(report.warnings@);
    let ghost errors_k = report.errors@;
    proof {
        reveal_strlit("Feature");
    }
    if !str_eq(feature.type_.as_str(), "Feature") {
        report.errors.push(ValidationError::NotAFeature { index: k, found: feature.type_.clone() });
        assert(error_views(report.errors@) =~= error_views(errors_k) + feature_error(fs@, k as int));
    } else {
        assert(error_views(report.errors@) =~= error_views(errors_k) + feature_error(fs@, k as int));
    }
    check_properties(fs, k, feature, seen, report);
    let ghost warnings_p = warning_views(report.warnings@);
    let ghost raw_p = report.warnings@;
    if let Geometry::Unknown(_) = &feature.geometry {
        push_warning(
            report,
            ValidationWarning::UnknownGeometryType {
                index: k,
                type_string: feature.geometry.type_string().to_string(),
            },
        );
    }
    let ghost warnings_u = warning_views(report.warnings@);
    let ghost raw_u = report.warnings@;
    assert(appended(raw_u, raw_p)) by {
        assert(raw_u.subrange(0, raw_p.len() as int) =~= raw_p);
    }
    assert(warnings_u =~= warnings_p + (if feature.geometry is Unknown {
        seq![WarningView::UnknownGeometryType { index: k as int, type_string: feature.geometry.type_string_spec() }]
    } else {
        Seq::empty()
    }));
    let positions = feature.geometry.positions();
    let ghost ps = feature.geometry.all_positions();
    let ghost errors_after = report.errors@;
    let mut i: usize = 0;
    assert(raw_u.subrange(0, raw_u.len() as int) =~= raw_u);
    assert(warnings_u + bound_warnings(k as int, ps, 0, n_traces, n_samples) =~= warnings_u);
    while i < positions.len()
        invariant
            i <= positions@.len(),
            referenced(positions@) == ps,
            report.errors@ == errors_after,
            appended(report.warnings@, raw_u),
            warning_views(report.warnings@) == warnings_u + bound_warnings(
                k as int,
                ps,
                i as int,
                n_traces,
                n_samples,
            ),
        decreases positions@.len() - i,
    {
        let position = positions[i];
        assert(*position == ps[i as int]);
        let ghost raw_i = report.warnings@;
        check_bound(k, "x", position.x(), n_traces, report);
        let ghost raw_x = report.warnings@;
        check_bound(k, "y", position.y(), n_samples, report);
        proof {
            reveal_strlit("x");
            reveal_strlit("y");
            lemma_appended_transitive(raw_x, raw_i, raw_u);
            lemma_appended_transitive(report.warnings@, raw_x, raw_u);
        }
        i = i + 1;
    }
    assert(warning_views(report.warnings@) =~= warnings_k + warnings_for_feature(
        fs@,
        k as int,
        n_traces,
        n_samples,
    ));
    proof {
        lemma_appended_transitive(raw_u, raw_p, raw_k);
        lemma_appended_transitive(report.warnings@, raw_u, raw_k);
    }
}

fn check_features(document: &Document, report: &mut Report)
    ensures
        appended(final(report).warnings@, old(report).warnings@),
        error_views(final(report).errors@) == error_views(old(report).errors@) + feature_errors(
            document.features@,
            document.features@.len() as int,
        ),
        warning_views(final(report).warnings@) == warning_views(old(report).warnings@)
            + feature_warnings(
            document.features@,
            document.features@.len() as int,
            declared_shape(*document).0,
            declared_shape(*document).1,
        ),
{
    let (n_traces, n_samples) = match &document.source {
        Some(source) => (source.n_traces, source.n_samples),
        None => (None, None),
    };
    let features = &document.features;
    let ghost fs = features@;
    let ghost errors0 = error_views(report.errors@);
    let ghost warnings0 = warning_views(report.warnings@);
    let ghost raw0 = report.warnings@;
    let mut seen: Vec<&str> = Vec::new();
    let mut k: usize = 0;
    assert(raw0.subrange(0, raw0.len() as int) =~= raw0);
    assert(errors0 + feature_errors(fs, 0) =~= errors0);
    assert(warnings0 + feature_warnings(fs, 0, n_traces, n_samples) =~= warnings0);
    assert(ids_before(fs, 0) =~= Seq::empty());
    while k < features.len()
        invariant
            k <= fs.len(),
            fs == features@,
            error_views(report.errors@) == errors0 + feature_errors(fs, k as int),
            warning_views(report.warnings@) == warnings0 + feature_warnings(
                fs,
                k as int,
                n_traces,
                n_samples,
            ),
            forall|id: Seq<char>| id_views(seen@).contains(id) <==> ids_before(fs, k as int).contains(Some(id)),
            appended(report.warnings@, raw0),
        decreases fs.len() - k,
    {
        let ghost raw_k = report.warnings@;
        check_feature(Ghost(fs), k, &features[k], &mut seen, n_traces, n_samples, report);
        assert(error_views(report.errors@) =~= errors0 + feature_errors(fs, k + 1));
        assert(warning_views(report.warnings@) =~= warnings0 + feature_warnings(
            fs,
            k + 1,
            n_traces,
            n_samples,
        ));
        proof {
            lemma_appended_transitive(report.warnings@, raw_k, raw0);
        }
        k = k + 1;
    }
}

/// Validate a document against the format's rules.
///
/// The errors are the convention values outside the fixed vocabulary, then the
/// feature entries that are not `"Feature"`. The warnings are those about
/// anchors (each unusable anchor, or `NotReanchorable` when none is
/// declared), then, feature by feature, those about its properties, its
/// geometry type and its coordinates against the declared shape.
pub fn validate(document: &Document) -> (r: Report)
    ensures
        error_views(r.errors@) == convention_errors(*document) + feature_errors(
            document.features@,
            document.features@.len() as int,
        ),
        r.warnings@.len() >= anchor_warning_count(*document),
        anchor_warnings_are(
            *document,
            r.warnings@.subrange(0, anchor_warning_count(*document)),
        ),
        warning_views(r.warnings@.subrange(anchor_warning_count(*document), r.warnings@.len() as int))
            == feature_warnings(
            document.features@,
            document.features@.len() as int,
            declared_shape(*document).0,
            declared_shape(*document).1,
        ),
{
    let mut report = Report::default();
    if let Some(c) = &document.coordinates {
        if let Some(convention) = &c.convention {
            check_convention(convention, &mut report);
        }
    }
    assert(error_views(report.errors@) =~= convention_errors(*document));
    check_anchors(document, &mut report);
    let ghost anchor_part = report.warnings@;
    assert(anchor_part.subrange(0, anchor_part.len() as int) =~= anchor_part);
    check_features(document, &mut report);
    proof {
        let m = anchor_warning_count(*document);
        assert(anchor_part.subrange(0, 0) =~= Seq::<ValidationWarning>::empty());
        assert(anchor_part.len() == m);
        assert(warning_views(report.warnings@) == warning_views(anchor_part) + feature_warnings(
            document.features@,
            document.features@.len() as int,
            declared_shape(*document).0,
            declared_shape(*document).1,
        ));
        assert(report.warnings@.subrange(0, m) == anchor_part);
        assert(warning_views(report.warnings@) =~= warning_views(anchor_part) + warning_views(
            report.warnings@.subrange(m, report.warnings@.len() as int),
        )) by {
            assert(report.warnings@ =~= anchor_part + report.warnings@.subrange(
                m,
                report.warnings@.len() as int,
            ));
        }
        assert(warning_views(report.warnings@.subrange(m, report.warnings@.len() as int))
            =~= warning_views(report.warnings@).subrange(m, report.warnings@.len() as int));
    }
    report
}

/// A stated convention field holds the one value the format permits.
pub open spec fn field_permitted(value: Option<Seq<char>>, permitted: Seq<char>) -> bool {
    value matches Some(v) ==> v == permitted
}

/// Every convention value the document states is the permitted one.
pub open spec fn conventions_permitted(document: Document) -> bool {
    match document.coordinates {
        Some(c) => match c.convention {
            Some(conv) => {
                &&& field_permitted(string_view(conv.origin), "upper-left"@)
                &&& field_permitted(string_view(conv.indexing), "zero-based"@)
                &&& field_permitted(string_view(conv.pixel_reference), "center"@)
                &&& field_permitted(direction_entry(conv.axis_directions, "x"@), "right"@)
                &&& field_permitted(direction_entry(conv.axis_directions, "y"@), "down"@)
            },
            None => true,
        },
        None => true,
    }
}

proof fn lemma_no_feature_errors(features: Seq<Feature>, n: int)
    requires
        0 <= n <= features.len(),
    ensures
        feature_errors(features, n).len() == 0 <==> forall|k: int|
            0 <= k < n ==> (#[trigger] features[k]).type_@ == "Feature"@,
    decreases n,
{
    if n > 0 {
        lemma_no_feature_errors(features, n - 1);
    }
}

/// A document is refused exactly when it states a convention value other
/// than the permitted one, or has an entry whose `type` is not `"Feature"`;
/// nothing else is fatal.
pub proof fn lemma_fatal_exactly_when(document: Document)
    ensures
        (convention_errors(document) + feature_errors(
            document.features@,
            document.features@.len() as int,
        )).len() == 0 <==> conventions_permitted(document) && forall|k: int|
            0 <= k < document.features@.len() ==> (#[trigger] document.features@[k]).type_@
                == "Feature"@,
{
    lemma_no_feature_errors(document.features@, document.features@.len() as int);
}

proof fn lemma_contains_in_sum<A>(a: Seq<A>, b: Seq<A>, v: A)
    ensures
        a.contains(v) ==> (a + b).contains(v),
        b.contains(v) ==> (a + b).contains(v),
{
    if a.contains(v) {
        let i = choose|i: int| 0 <= i < a.len() && a[i] == v;
        assert((a + b)[i] == v);
    }
    if b.contains(v) {
        let i = choose|i: int| 0 <= i < b.len() && b[i] == v;
        assert((a + b)[a.len() + i] == v);
    }
}

proof fn lemma_bound_warnings_contain(
    index: int,
    positions: Seq<Position>,
    n: int,
    n_traces: Option<u64>,
    n_samples: Option<u64>,
    i: int,
    v: WarningView,
)
    requires
        0 <= i < n <= positions.len(),
        bound_warning(index, "x"@, tuple_x(positions[i]), n_traces).contains(v) || bound_warning(
            index,
            "y"@,
            tuple_y(positions[i]),
            n_samples,
        ).contains(v),
    ensures
        bound_warnings(index, positions, n, n_traces, n_samples).contains(v),
    decreases n,
{
    let p = positions[n - 1];
    let front = bound_warnings(index, positions, n - 1, n_traces, n_samples);
    let bx = bound_warning(index, "x"@, tuple_x(p), n_traces);
    let by = bound_warning(index, "y"@, tuple_y(p), n_samples);
    if i < n - 1 {
        lemma_bound_warnings_contain(index, positions, n - 1, n_traces, n_samples, i, v);
        lemma_contains_in_sum(front, bx, v);
    } else {
        lemma_contains_in_sum(front, bx, v);
    }
    lemma_contains_in_sum(front + bx, by, v);
}

proof fn lemma_feature_warnings_contain(
    features: Seq<Feature>,
    n: int,
    n_traces: Option<u64>,
    n_samples: Option<u64>,
    k: int,
    v: WarningView,
)
    requires
        0 <= k < n <= features.len(),
        warnings_for_feature(features, k, n_traces, n_samples).contains(v),
    ensures
        feature_warnings(features, n, n_traces, n_samples).contains(v),
    decreases n,
{
    let front = feature_warnings(features, n - 1, n_traces, n_samples);
    let last = warnings_for_feature(features, n - 1, n_traces, n_samples);
    if k < n - 1 {
        lemma_feature_warnings_contain(features, n - 1, n_traces, n_samples, k, v);
    }
    lemma_contains_in_sum(front, last, v);
}

/// Every coordinate outside the shape a document declares is reported,
/// whatever kind of geometry holds it: for each feature and each position
/// of its geometry, an `x` below zero or at least `n_traces` (as binary64)
/// gives an `OutOfBounds` warning naming the feature, the axis `x`, the
/// value and the limit, and likewise `y` against `n_samples`. The
/// hypotheses are what [`validate`] ensures of its report.
pub proof fn lemma_every_out_of_bounds_coordinate_is_reported(document: Document, r: Report)
    requires
        r.warnings@.len() >= anchor_warning_count(document),
        warning_views(r.warnings@.subrange(anchor_warning_count(document), r.warnings@.len() as int))
            == feature_warnings(
            document.features@,
            document.features@.len() as int,
            declared_shape(document).0,
            declared_shape(document).1,
        ),
    ensures
        forall|k: int, i: int|
            0 <= k < document.features@.len() && 0 <= i
                < document.features@[k].geometry.all_positions().len() ==> {
                let p = #[trigger] document.features@[k].geometry.all_positions()[i];
                &&& document.source matches Some(s) ==> (s.n_traces matches Some(l) ==> (p.0@.len() > 0
                    && (p.0@[0].less_than(positive_zero()) || (Binary64 { bits: encoding_of_u64(l) }).at_most(
                    p.0@[0],
                )) ==> exists|w: int|
                    0 <= w < r.warnings@.len() && (#[trigger] r.warnings@[w] matches ValidationWarning::OutOfBounds {
                        index,
                        axis,
                        value,
                        limit,
                    } && index == k && axis@ == "x"@ && value == p.0@[0] && limit == l)))
                &&& document.source matches Some(s) ==> (s.n_samples matches Some(l) ==> (p.0@.len() > 1
                    && (p.0@[1].less_than(positive_zero()) || (Binary64 { bits: encoding_of_u64(l) }).at_most(
                    p.0@[1],
                )) ==> exists|w: int|
                    0 <= w < r.warnings@.len() && (#[trigger] r.warnings@[w] matches ValidationWarning::OutOfBounds {
                        index,
                        axis,
                        value,
                        limit,
                    } && index == k && axis@ == "y"@ && value == p.0@[1] && limit == l)))
            },
{
    let fs = document.features@;
    let (nt, ns) = declared_shape(document);
    let m = anchor_warning_count(document);
    let sub = r.warnings@.subrange(m, r.warnings@.len() as int);
    assert forall|k: int, i: int|
        0 <= k < fs.len() && 0 <= i < fs[k].geometry.all_positions().len() implies {
        let p = #[trigger] document.features@[k].geometry.all_positions()[i];
        &&& document.source matches Some(s) ==> (s.n_traces matches Some(l) ==> (p.0@.len() > 0
            && (p.0@[0].less_than(positive_zero()) || (Binary64 { bits: encoding_of_u64(l) }).at_most(
            p.0@[0],
        )) ==> exists|w: int|
            0 <= w < r.warnings@.len() && (#[trigger] r.warnings@[w] matches ValidationWarning::OutOfBounds {
                index,
                axis,
                value,
                limit,
            } && index == k && axis@ == "x"@ && value == p.0@[0] && limit == l)))
        &&& document.source matches Some(s) ==> (s.n_samples matches Some(l) ==> (p.0@.len() > 1
            && (p.0@[1].less_than(positive_zero()) || (Binary64 { bits: encoding_of_u64(l) }).at_most(
            p.0@[1],
        )) ==> exists|w: int|
            0 <= w < r.warnings@.len() && (#[trigger] r.warnings@[w] matches ValidationWarning::OutOfBounds {
                index,
                axis,
                value,
                limit,
            } && index == k && axis@ == "y"@ && value == p.0@[1] && limit == l)))
    } by {
        let f = fs[k];
        let ps = f.geometry.all_positions();
        let p = ps[i];
        let head = property_warnings(fs, k) + (if f.geometry is Unknown {
            seq![WarningView::UnknownGeometryType { index: k, type_string: f.geometry.type_string_spec() }]
        } else {
            Seq::empty()
        });
        let bw = bound_warnings(k, ps, ps.len() as int, nt, ns);
        assert(warnings_for_feature(fs, k, nt, ns) == head + bw);
        if let Some(src) = document.source {
            if let Some(l) = src.n_traces {
                if p.0@.len() > 0 && (p.0@[0].less_than(positive_zero()) || (Binary64 {
                    bits: encoding_of_u64(l),
                }).at_most(p.0@[0])) {
                    let v = WarningView::OutOfBounds { index: k, axis: "x"@, value: p.0@[0], limit: l };
                    assert(bound_warning(k, "x"@, tuple_x(p), nt) =~= seq![v]);
                    assert(seq![v][0] == v);
                    lemma_bound_warnings_contain(k, ps, ps.len() as int, nt, ns, i, v);
                    lemma_contains_in_sum(head, bw, v);
                    lemma_feature_warnings_contain(fs, fs.len() as int, nt, ns, k, v);
                    let idx = choose|idx: int|
                        0 <= idx < warning_views(sub).len() && warning_views(sub)[idx] == v;
                    assert(sub[idx]@ == v);
                    assert(r.warnings@[m + idx] == sub[idx]);
                    assert(r.warnings@[m + idx] matches ValidationWarning::OutOfBounds {
                        index,
                        axis,
                        value,
                        limit,
                    } && index == k && axis@ == "x"@ && value == p.0@[0] && limit == l);
                }
            }
        }
        if let Some(src) = document.source {
            if let Some(l) = src.n_samples {
                if p.0@.len() > 1 && (p.0@[1].less_than(positive_zero()) || (Binary64 {
                    bits: encoding_of_u64(l),
                }).at_most(p.0@[1])) {
                    let v = WarningView::OutOfBounds { index: k, axis: "y"@, value: p.0@[1], limit: l };
                    assert(bound_warning(k, "y"@, tuple_y(p), ns) =~= seq![v]);
                    assert(seq![v][0] == v);
                    lemma_bound_warnings_contain(k, ps, ps.len() as int, nt, ns, i, v);
                    lemma_contains_in_sum(head, bw, v);
                    lemma_feature_warnings_contain(fs, fs.len() as int, nt, ns, k, v);
                    let idx = choose|idx: int|
                        0 <= idx < warning_views(sub).len() && warning_views(sub)[idx] == v;
                    assert(sub[idx]@ == v);
                    assert(r.warnings@[m + idx] == sub[idx]);
                    assert(r.warnings@[m + idx] matches ValidationWarning::OutOfBounds {
                        index,
                        axis,
                        value,
                        limit,
                    } && index == k && axis@ == "y"@ && value == p.0@[1] && limit == l);
                }
            }
        }
    }
}

proof fn lemma_feature_errors_contain(features: Seq<Feature>, n: int, k: int, v: ErrorView)
    requires
        0 <= k < n <= features.len(),
        feature_error(features, k).contains(v),
    ensures
        feature_errors(features, n).contains(v),
    decreases n,
{
    if k < n - 1 {
        lemma_feature_errors_contain(features, n - 1, k, v);
    }
    lemma_contains_in_sum(feature_errors(features, n - 1), feature_error(features, n - 1), v);
}

proof fn lemma_feature_warning_in_report(document: Document, r: Report, k: int, v: WarningView)
    requires
        r.warnings@.len() >= anchor_warning_count(document),
        warning_views(r.warnings@.subrange(anchor_warning_count(document), r.warnings@.len() as int))
            == feature_warnings(
            document.features@,
            document.features@.len() as int,
            declared_shape(document).0,
            declared_shape(document).1,
        ),
        0 <= k < document.features@.len(),
        warnings_for_feature(
            document.features@,
            k,
            declared_shape(document).0,
            declared_shape(document).1,
        ).contains(v),
    ensures
        exists|w: int| 0 <= w < r.warnings@.len() && r.warnings@[w]@ == v,
{
    let fs = document.features@;
    let (nt, ns) = declared_shape(document);
    let m = anchor_warning_count(document);
    let sub = r.warnings@.subrange(m, r.warnings@.len() as int);
    lemma_feature_warnings_contain(fs, fs.len() as int, nt, ns, k, v);
    let idx = choose|idx: int| 0 <= idx < warning_views(sub).len() && warning_views(sub)[idx] == v;
    assert(r.warnings@[m + idx] == sub[idx]);
}

/// Every defect of a feature is reported, naming the feature: an entry
/// whose `type` is not `"Feature"` is an error carrying the type found; a
/// feature without properties, with properties but no string `label`, or
/// with properties but no string `id`, gets the matching warning; a
/// feature whose id repeats the id of an earlier feature gets a
/// `DuplicateId` warning with that id; and a geometry of an unmodelled
/// type gets a warning naming that type. The hypotheses are what
/// [`validate`] ensures of its report.
pub proof fn lemma_every_feature_defect_is_reported(document: Document, r: Report)
    requires
        error_views(r.errors@) == convention_errors(document) + feature_errors(
            document.features@,
            document.features@.len() as int,
        ),
        r.warnings@.len() >= anchor_warning_count(document),
        warning_views(r.warnings@.subrange(anchor_warning_count(document), r.warnings@.len() as int))
            == feature_warnings(
            document.features@,
            document.features@.len() as int,
            declared_shape(document).0,
            declared_shape(document).1,
        ),
    ensures
        forall|k: int|
            0 <= k < document.features@.len() ==> {
                let f = #[trigger] document.features@[k];
                &&& f.type_@ != "Feature"@ ==> exists|e: int|
                    0 <= e < r.errors@.len() && (#[trigger] r.errors@[e] matches ValidationError::NotAFeature {
                        index,
                        found,
                    } && index == k && found@ == f.type_@)
                &&& f.properties is None ==> exists|w: int|
                    0 <= w < r.warnings@.len() && (#[trigger] r.warnings@[w] matches ValidationWarning::MissingProperties {
                        index,
                    } && index == k)
                &&& f.properties is Some && f.label_spec() is None ==> exists|w: int|
                    0 <= w < r.warnings@.len() && (#[trigger] r.warnings@[w] matches ValidationWarning::MissingLabel {
                        index,
                    } && index == k)
                &&& f.properties is Some && f.id_spec() is None ==> exists|w: int|
                    0 <= w < r.warnings@.len() && (#[trigger] r.warnings@[w] matches ValidationWarning::MissingId {
                        index,
                    } && index == k)
                &&& f.geometry is Unknown ==> exists|w: int|
                    0 <= w < r.warnings@.len() && (#[trigger] r.warnings@[w] matches ValidationWarning::UnknownGeometryType {
                        index,
                        type_string,
                    } && index == k && type_string@ == f.geometry.type_string_spec())
            },
        forall|j: int, k: int|
            0 <= j < k < document.features@.len() && (#[trigger] document.features@[k]).id_spec() is Some
                && (#[trigger] document.features@[j]).id_spec() == document.features@[k].id_spec()
                ==> exists|w: int|
                0 <= w < r.warnings@.len() && (#[trigger] r.warnings@[w] matches ValidationWarning::DuplicateId {
                    index,
                    id,
                } && index == k && Some(id@) == document.features@[k].id_spec()),
{
    let fs = document.features@;
    let (nt, ns) = declared_shape(document);
    assert forall|k: int| 0 <= k < fs.len() implies {
        let f = #[trigger] document.features@[k];
        &&& f.type_@ != "Feature"@ ==> exists|e: int|
            0 <= e < r.errors@.len() && (#[trigger] r.errors@[e] matches ValidationError::NotAFeature {
                index,
                found,
            } && index == k && found@ == f.type_@)
        &&& f.properties is None ==> exists|w: int|
            0 <= w < r.warnings@.len() && (#[trigger] r.warnings@[w] matches ValidationWarning::MissingProperties {
                index,
            } && index == k)
        &&& f.properties is Some && f.label_spec() is None ==> exists|w: int|
            0 <= w < r.warnings@.len() && (#[trigger] r.warnings@[w] matches ValidationWarning::MissingLabel {
                index,
            } && index == k)
        &&& f.properties is Some && f.id_spec() is None ==> exists|w: int|
            0 <= w < r.warnings@.len() && (#[trigger] r.warnings@[w] matches ValidationWarning::MissingId {
                index,
            } && index == k)
        &&& f.geometry is Unknown ==> exists|w: int|
            0 <= w < r.warnings@.len() && (#[trigger] r.warnings@[w] matches ValidationWarning::UnknownGeometryType {
                index,
                type_string,
            } && index == k && type_string@ == f.geometry.type_string_spec())
    } by {
        let f = fs[k];
        let pw = property_warnings(fs, k);
        let uw = if f.geometry is Unknown {
            seq![WarningView::UnknownGeometryType { index: k, type_string: f.geometry.type_string_spec() }]
        } else {
            Seq::empty()
        };
        let bw = bound_warnings(k, f.geometry.all_positions(), f.geometry.all_positions().len() as int, nt, ns);
        assert(warnings_for_feature(fs, k, nt, ns) == pw + uw + bw);
        if f.type_@ != "Feature"@ {
            let v = ErrorView::NotAFeature { index: k, found: f.type_@ };
            assert(feature_error(fs, k)[0] == v);
            lemma_feature_errors_contain(fs, fs.len() as int, k, v);
            lemma_contains_in_sum(convention_errors(document), feature_errors(fs, fs.len() as int), v);
            let e = choose|e: int| 0 <= e < error_views(r.errors@).len() && error_views(r.errors@)[e] == v;
            assert(r.errors@[e]@ == v);
        }
        let label_part = if f.label_spec() is None {
            seq![WarningView::MissingLabel { index: k }]
        } else {
            Seq::<WarningView>::empty()
        };
        let id_part = match f.id_spec() {
            None => seq![WarningView::MissingId { index: k }],
            Some(id) => if ids_before(fs, k).contains(Some(id)) {
                seq![WarningView::DuplicateId { index: k, id }]
            } else {
                Seq::empty()
            },
        };
        if f.properties is Some {
            assert(pw == label_part + id_part);
        }
        if f.properties is None {
            let v = WarningView::MissingProperties { index: k };
            assert(pw[0] == v);
            lemma_contains_in_sum(pw, uw, v);
            lemma_contains_in_sum(pw + uw, bw, v);
            lemma_feature_warning_in_report(document, r, k, v);
        }
        if f.properties is Some && f.label_spec() is None {
            let v = WarningView::MissingLabel { index: k };
            assert(label_part[0] == v);
            lemma_contains_in_sum(label_part, id_part, v);
            lemma_contains_in_sum(pw, uw, v);
            lemma_contains_in_sum(pw + uw, bw, v);
            lemma_feature_warning_in_report(document, r, k, v);
        }
        if f.properties is Some && f.id_spec() is None {
            let v = WarningView::MissingId { index: k };
            assert(id_part[0] == v);
            lemma_contains_in_sum(label_part, id_part, v);
            lemma_contains_in_sum(pw, uw, v);
            lemma_contains_in_sum(pw + uw, bw, v);
            lemma_feature_warning_in_report(document, r, k, v);
        }
        if f.geometry is Unknown {
            let v = WarningView::UnknownGeometryType { index: k, type_string: f.geometry.type_string_spec() };
            assert(uw[0] == v);
            lemma_contains_in_sum(pw, uw, v);
            lemma_contains_in_sum(pw + uw, bw, v);
            lemma_feature_warning_in_report(document, r, k, v);
        }
    }
    assert forall|j: int, k: int|
        0 <= j < k < fs.len() && (#[trigger] document.features@[k]).id_spec() is Some
            && (#[trigger] document.features@[j]).id_spec() == document.features@[k].id_spec()
        implies exists|w: int|
            0 <= w < r.warnings@.len() && (#[trigger] r.warnings@[w] matches ValidationWarning::DuplicateId {
                index,
                id,
            } && index == k && Some(id@) == document.features@[k].id_spec()) by {
        let f = fs[k];
        let id = f.id_spec().unwrap();
        assert(ids_before(fs, k)[j] == Some(id));
        assert(f.properties is Some);
        let v = WarningView::DuplicateId { index: k, id };
        let label_part = if f.label_spec() is None {
            seq![WarningView::MissingLabel { index: k }]
        } else {
            Seq::<WarningView>::empty()
        };
        let id_part = seq![v];
        let pw = property_warnings(fs, k);
        let uw = if f.geometry is Unknown {
            seq![WarningView::UnknownGeometryType { index: k, type_string: f.geometry.type_string_spec() }]
        } else {
            Seq::empty()
        };
        let bw = bound_warnings(k, f.geometry.all_positions(), f.geometry.all_positions().len() as int, nt, ns);
        assert(pw == label_part + id_part);
        assert(warnings_for_feature(fs, k, nt, ns) == pw + uw + bw);
        assert(id_part[0] == v);
        lemma_contains_in_sum(label_part, id_part, v);
        lemma_contains_in_sum(pw, uw, v);
        lemma_contains_in_sum(pw + uw, bw, v);
        lemma_feature_warning_in_report(document, r, k, v);
        let w = choose|w: int| 0 <= w < r.warnings@.len() && r.warnings@[w]@ == v;
        assert(r.warnings@[w] matches ValidationWarning::DuplicateId { index, id } && index == k
            && Some(id@) == document.features@[k].id_spec());
    }
}

/// Every convention value a document states other than the permitted one
/// is an error naming the field, the value stated and the value permitted:
/// `origin` (`upper-left`), `indexing` (`zero-based`), `pixel_reference`
/// (`center`), and the string under `x` (`right`) and `y` (`down`) of
/// `axis_directions`. The hypothesis is what [`validate`] ensures of its
/// errors.
pub proof fn lemma_every_unsupported_convention_is_reported(document: Document, r: Report)
    requires
        error_views(r.errors@) == convention_errors(document) + feature_errors(
            document.features@,
            document.features@.len() as int,
        ),
    ensures
        document.coordinates matches Some(c) ==> (c.convention matches Some(conv) ==> (conv.origin is Some && conv.origin.unwrap()@ != "upper-left"@
            ==> exists|e: int|
            0 <= e < r.errors@.len() && (#[trigger] r.errors@[e] matches ValidationError::UnsupportedConvention {
                field,
                value,
                permitted,
            } && field@ == "origin"@ && value@ == conv.origin.unwrap()@ && permitted@ == "upper-left"@))),
        document.coordinates matches Some(c) ==> (c.convention matches Some(conv) ==> (conv.indexing is Some && conv.indexing.unwrap()@ != "zero-based"@
            ==> exists|e: int|
            0 <= e < r.errors@.len() && (#[trigger] r.errors@[e] matches ValidationError::UnsupportedConvention {
                field,
                value,
                permitted,
            } && field@ == "indexing"@ && value@ == conv.indexing.unwrap()@ && permitted@ == "zero-based"@))),
        document.coordinates matches Some(c) ==> (c.convention matches Some(conv) ==> (conv.pixel_reference is Some && conv.pixel_reference.unwrap()@ != "center"@
            ==> exists|e: int|
            0 <= e < r.errors@.len() && (#[trigger] r.errors@[e] matches ValidationError::UnsupportedConvention {
                field,
                value,
                permitted,
            } && field@ == "pixel_reference"@ && value@ == conv.pixel_reference.unwrap()@ && permitted@ == "center"@))),
        document.coordinates matches Some(c) ==> (c.convention matches Some(conv) ==> (conv.axis_directions is Some && json_object_strings(conv.axis_directions.unwrap()).dom().contains("x"@)
            && json_object_strings(conv.axis_directions.unwrap())["x"@] is Some
            && json_object_strings(conv.axis_directions.unwrap())["x"@].unwrap() != "right"@
            ==> exists|e: int|
            0 <= e < r.errors@.len() && (#[trigger] r.errors@[e] matches ValidationError::UnsupportedConvention {
                field,
                value,
                permitted,
            } && field@ == "axis_directions.x"@ && value@ == json_object_strings(conv.axis_directions.unwrap())["x"@].unwrap() && permitted@ == "right"@))),
        document.coordinates matches Some(c) ==> (c.convention matches Some(conv) ==> (conv.axis_directions is Some && json_object_strings(conv.axis_directions.unwrap()).dom().contains("y"@)
            && json_object_strings(conv.axis_directions.unwrap())["y"@] is Some
            && json_object_strings(conv.axis_directions.unwrap())["y"@].unwrap() != "down"@
            ==> exists|e: int|
            0 <= e < r.errors@.len() && (#[trigger] r.errors@[e] matches ValidationError::UnsupportedConvention {
                field,
                value,
                permitted,
            } && field@ == "axis_directions.y"@ && value@ == json_object_strings(conv.axis_directions.unwrap())["y"@].unwrap() && permitted@ == "down"@))),
{
    reveal_strlit("origin");
    reveal_strlit("indexing");
    reveal_strlit("pixel_reference");
    reveal_strlit("axis_directions.x");
    reveal_strlit("axis_directions.y");
    reveal_strlit("upper-left");
    reveal_strlit("zero-based");
    reveal_strlit("center");
    reveal_strlit("right");
    reveal_strlit("down");
    if let Some(c) = document.coordinates {
        if let Some(conv) = c.convention {
            let fe = feature_errors(document.features@, document.features@.len() as int);
            let a = convention_field_error("origin"@, string_view(conv.origin), "upper-left"@);
            let b = convention_field_error("indexing"@, string_view(conv.indexing), "zero-based"@);
            let cc = convention_field_error(
                "pixel_reference"@,
                string_view(conv.pixel_reference),
                "center"@,
            );
            let d = convention_field_error(
                "axis_directions.x"@,
                direction_entry(conv.axis_directions, "x"@),
                "right"@,
            );
            let ee = convention_field_error(
                "axis_directions.y"@,
                direction_entry(conv.axis_directions, "y"@),
                "down"@,
            );
            assert(convention_errors(document) == a + b + cc + d + ee);
            let all = a + b + cc + d + ee + fe;
            assert(error_views(r.errors@) == all);
            if a.len() > 0 {
                assert(a.contains(a[0]));
                lemma_contains_in_sum(a, b, a[0]);
                lemma_contains_in_sum(a + b, cc, a[0]);
                lemma_contains_in_sum(a + b + cc, d, a[0]);
                lemma_contains_in_sum(a + b + cc + d, ee, a[0]);
                lemma_contains_in_sum(a + b + cc + d + ee, fe, a[0]);
                assert(all.contains(a[0]));
                let e = choose|e: int| 0 <= e < error_views(r.errors@).len() && error_views(r.errors@)[e] == a[0];
                assert(r.errors@[e]@ == a[0]);
            }
            if b.len() > 0 {
                assert(b.contains(b[0]));
                lemma_contains_in_sum(a, b, b[0]);
                lemma_contains_in_sum(a + b, cc, b[0]);
                lemma_contains_in_sum(a + b + cc, d, b[0]);
                lemma_contains_in_sum(a + b + cc + d, ee, b[0]);
                lemma_contains_in_sum(a + b + cc + d + ee, fe, b[0]);
                assert(all.contains(b[0]));
                let e = choose|e: int| 0 <= e < error_views(r.errors@).len() && error_views(r.errors@)[e] == b[0];
                assert(r.errors@[e]@ == b[0]);
            }
            if cc.len() > 0 {
                assert(cc.contains(cc[0]));
                lemma_contains_in_sum(a, b, cc[0]);
                lemma_contains_in_sum(a + b, cc, cc[0]);
                lemma_contains_in_sum(a + b + cc, d, cc[0]);
                lemma_contains_in_sum(a + b + cc + d, ee, cc[0]);
                lemma_contains_in_sum(a + b + cc + d + ee, fe, cc[0]);
                assert(all.contains(cc[0]));
                let e = choose|e: int| 0 <= e < error_views(r.errors@).len() && error_views(r.errors@)[e] == cc[0];
                assert(r.errors@[e]@ == cc[0]);
            }
            if d.len() > 0 {
                assert(d.contains(d[0]));
                lemma_contains_in_sum(a, b, d[0]);
                lemma_contains_in_sum(a + b, cc, d[0]);
                lemma_contains_in_sum(a + b + cc, d, d[0]);
                lemma_contains_in_sum(a + b + cc + d, ee, d[0]);
                lemma_contains_in_sum(a + b + cc + d + ee, fe, d[0]);
                assert(all.contains(d[0]));
                let e = choose|e: int| 0 <= e < error_views(r.errors@).len() && error_views(r.errors@)[e] == d[0];
                assert(r.errors@[e]@ == d[0]);
            }
            if ee.len() > 0 {
                assert(ee.contains(ee[0]));
                lemma_contains_in_sum(a, b, ee[0]);
                lemma_contains_in_sum(a + b, cc, ee[0]);
                lemma_contains_in_sum(a + b + cc, d, ee[0]);
                lemma_contains_in_sum(a + b + cc + d, ee, ee[0]);
                lemma_contains_in_sum(a + b + cc + d + ee, fe, ee[0]);
                assert(all.contains(ee[0]));
                let e = choose|e: int| 0 <= e < error_views(r.errors@).len() && error_views(r.errors@)[e] == ee[0];
                assert(r.errors@[e]@ == ee[0]);
            }
        }
    }
}

/// Every declared anchor whose mapping is unusable is reported, naming its
/// axis and its name; and a document that declares no anchor at all is
/// reported as not re-anchorable, first. The hypotheses are what
/// [`validate`] ensures of its report.
pub proof fn lemma_every_unusable_anchor_is_reported(document: Document, r: Report)
    requires
        r.warnings@.len() >= anchor_warning_count(document),
        anchor_warnings_are(document, r.warnings@.subrange(0, anchor_warning_count(document))),
    ensures
        declared_axes(document) matches Some(axes) ==> forall|i: int|
            0 <= i < declared_anchors(axes.x).len() && !(#[trigger] declared_anchors(axes.x)[i]).usable()
                ==> exists|w: int|
                0 <= w < r.warnings@.len() && (#[trigger] r.warnings@[w] matches ValidationWarning::UnusableAnchor {
                    axis,
                    name,
                    reason,
                } && axis@ == "x"@ && name@ == declared_anchors(axes.x)[i].name@),
        declared_axes(document) matches Some(axes) ==> forall|i: int|
            0 <= i < declared_anchors(axes.y).len() && !(#[trigger] declared_anchors(axes.y)[i]).usable()
                ==> exists|w: int|
                0 <= w < r.warnings@.len() && (#[trigger] r.warnings@[w] matches ValidationWarning::UnusableAnchor {
                    axis,
                    name,
                    reason,
                } && axis@ == "y"@ && name@ == declared_anchors(axes.y)[i].name@),
        (declared_axes(document) matches Some(axes) ==> declared_anchors(axes.x).len() == 0
            && declared_anchors(axes.y).len() == 0) ==> r.warnings@.len() > 0
            && r.warnings@[0] is NotReanchorable,
{
    let ws = r.warnings@.subrange(0, anchor_warning_count(document));
    reveal_strlit("x");
    reveal_strlit("y");
    if let Some(axes) = declared_axes(document) {
        let xs = tagged("x"@, axes.x);
        let ys = tagged("y"@, axes.y);
        let all = xs + ys;
        let pred = |e: (Seq<char>, AnchorAxis)| !e.1.usable();
        let bad = all.filter(pred);
        assert(all_anchors(document) == all);
        assert(unusable_anchors(document) == bad);
        assert(xs.len() == declared_anchors(axes.x).len());
        assert(ys.len() == declared_anchors(axes.y).len());
        assert forall|i: int|
            0 <= i < declared_anchors(axes.x).len() && !(#[trigger] declared_anchors(axes.x)[i]).usable()
            implies exists|w: int|
            0 <= w < r.warnings@.len() && (#[trigger] r.warnings@[w] matches ValidationWarning::UnusableAnchor {
                axis,
                name,
                reason,
            } && axis@ == "x"@ && name@ == declared_anchors(axes.x)[i].name@) by {
            let a = declared_anchors(axes.x)[i];
            let k = 0 + i;
            assert(all[k] == ("x"@, a));
            all.lemma_filter_contains(pred, k);
            let idx = choose|idx: int| 0 <= idx < bad.len() && bad[idx] == all[k];
            assert(ws[idx] matches ValidationWarning::UnusableAnchor { axis, name, reason }
                && axis@ == bad[idx].0 && name@ == bad[idx].1.name@);
            assert(r.warnings@[idx] == ws[idx]);
        }
        assert forall|i: int|
            0 <= i < declared_anchors(axes.y).len() && !(#[trigger] declared_anchors(axes.y)[i]).usable()
            implies exists|w: int|
            0 <= w < r.warnings@.len() && (#[trigger] r.warnings@[w] matches ValidationWarning::UnusableAnchor {
                axis,
                name,
                reason,
            } && axis@ == "y"@ && name@ == declared_anchors(axes.y)[i].name@) by {
            let a = declared_anchors(axes.y)[i];
            let k = xs.len() + i;
            assert(all[k] == ("y"@, a));
            all.lemma_filter_contains(pred, k);
            let idx = choose|idx: int| 0 <= idx < bad.len() && bad[idx] == all[k];
            assert(ws[idx] matches ValidationWarning::UnusableAnchor { axis, name, reason }
                && axis@ == bad[idx].0 && name@ == bad[idx].1.name@);
            assert(r.warnings@[idx] == ws[idx]);
        }
    }
    if all_anchors(document).len() == 0 {
        assert(warning_views(ws)[0] == ws[0]@);
        assert(r.warnings@[0] == ws[0]);
    }
}

} // verus!
