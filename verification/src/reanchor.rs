//! Re-anchoring an interpretation onto a differently processed revision.
//!
//! An interpretation stores trace/sample indices, which belong to the exact
//! revision it was drawn on. Re-anchoring evaluates an invariant quantity
//! from those indices on the authoring revision, then inverts it on the
//! target revision. The two hard rules of re-anchoring are enforced here rather
//! than left to callers: no shared anchor axis means refusal, never a silent
//! fall back to the raw index, and out-of-range coordinates are dropped and
//! counted rather than clamped to the edge.

use vstd::prelude::*;

use crate::binary64::Binary64;
use crate::document::{
    string_view, vec_view, AnchorAxis, Axes, Axis, Convention, Coordinates, Document, Feature, PrimaryAxis,
    Source,
};
use crate::geometry::{
    geometry_corresponds, lemma_corresponding_geometries_keep_shape,
    lemma_mapped_geometry_corresponds, replaced_xy, some_position, Position,
};
use crate::json::{str_eq, JsonObject};
use crate::mapping::{parts_give, str_view, Mapping};

verus! {

/// The anchor axes a target revision offers.
///
/// Built by the consumer from the radargram it is about to apply an
/// interpretation to.
#[derive(Debug, Clone, Default)]
pub struct RevisionAxes {
    pub x: Vec<AnchorAxis>,
    pub y: Vec<AnchorAxis>,
}

/// Why an interpretation could not be re-anchored.
#[derive(Debug, Clone, PartialEq)]
pub enum ReanchorError {
    /// The document carries no axis metadata, so there is
    /// nothing to re-anchor through.
    NoCoordinates,
    /// No anchor axis name is usable on both revisions for this axis.
    NoSharedAnchor {
        axis: &'static str,
        document_offers: Vec<String>,
        revision_offers: Vec<String>,
    },
    /// Every anchor name shared on this axis is synthetic on at least one
    /// side, so none carries information across revisions; `name` is the
    /// most preferred of them.
    SyntheticOnly { axis: &'static str, name: String },
}

/// Preference order for `x` anchors.
///
/// `original_trace` first because it is an exact integer identity rather
/// than an interpolated physical quantity. `trace_time` remains defined
/// where `original_trace` stops being meaningful — after resampling or
/// stacking, where output traces are interpolated combinations of inputs.
pub const X_ANCHOR_PREFERENCE: [&'static str; 2] = ["original_trace", "trace_time"];

/// Preference order for `y` anchors.
///
/// A normal-incidence travel time is what an antenna-separation-corrected
/// revision shares with another corrected one; the recorded travel time is
/// the physics both sides agree on otherwise; the recording clock relates
/// two revisions only through a coincidence of cropping, so it comes last.
pub const Y_ANCHOR_PREFERENCE: [&'static str; 3] = ["twtt_normal_incidence", "twtt", "recording_time"];

/// A feature dropped because a coordinate fell outside the target revision.
#[derive(Debug, Clone, PartialEq)]
pub struct DroppedFeature {
    pub index: usize,
    pub id: Option<String>,
    pub label: Option<String>,
}

/// The index in `anchors` of the first anchor called `name`.
pub open spec fn first_named(anchors: Seq<AnchorAxis>, name: Seq<char>) -> Option<int>
    decreases anchors.len(),
{
    if anchors.len() == 0 {
        None
    } else {
        match first_named(anchors.drop_last(), name) {
            Some(i) => Some(i),
            None => if anchors.last().name@ == name {
                Some(anchors.len() - 1)
            } else {
                None
            },
        }
    }
}

/// The first anchor called `name` exists and its mapping is usable.
pub open spec fn offers(anchors: Seq<AnchorAxis>, name: Seq<char>) -> bool {
    match first_named(anchors, name) {
        Some(i) => anchors[i].usable(),
        None => false,
    }
}

/// `name` can carry an axis across: both sides offer a usable anchor by
/// that name.
pub open spec fn shared(ours: Seq<AnchorAxis>, theirs: Seq<AnchorAxis>, name: Seq<char>) -> bool {
    offers(ours, name) && offers(theirs, name)
}

/// The position in `preference` of the most preferred shared name.
pub open spec fn choice(
    ours: Seq<AnchorAxis>,
    theirs: Seq<AnchorAxis>,
    preference: Seq<Seq<char>>,
) -> Option<int>
    decreases preference.len(),
{
    if preference.len() == 0 {
        None
    } else {
        match choice(ours, theirs, preference.drop_last()) {
            Some(p) => Some(p),
            None => if shared(ours, theirs, preference.last()) {
                Some(preference.len() - 1)
            } else {
                None
            },
        }
    }
}

/// `name` can carry an axis across and was recorded on both sides: it is
/// shared, and the anchor it names is synthetic on neither side.
pub open spec fn shared_recorded(
    ours: Seq<AnchorAxis>,
    theirs: Seq<AnchorAxis>,
    name: Seq<char>,
) -> bool {
    &&& shared(ours, theirs, name)
    &&& !ours[first_named(ours, name).unwrap()].synthetic
    &&& !theirs[first_named(theirs, name).unwrap()].synthetic
}

/// The position in `preference` of the most preferred name that is shared
/// and recorded on both sides.
pub open spec fn recorded_choice(
    ours: Seq<AnchorAxis>,
    theirs: Seq<AnchorAxis>,
    preference: Seq<Seq<char>>,
) -> Option<int>
    decreases preference.len(),
{
    if preference.len() == 0 {
        None
    } else {
        match recorded_choice(ours, theirs, preference.drop_last()) {
            Some(p) => Some(p),
            None => if shared_recorded(ours, theirs, preference.last()) {
                Some(preference.len() - 1)
            } else {
                None
            },
        }
    }
}

/// The characters of each name.
pub open spec fn name_views(names: Seq<&str>) -> Seq<Seq<char>> {
    names.map_values(|n: &str| n@)
}

/// The names of the anchors, in order.
pub open spec fn anchor_names(anchors: Seq<AnchorAxis>) -> Seq<Seq<char>> {
    anchors.map_values(|a: AnchorAxis| a.name@)
}

/// The characters of each string.
pub open spec fn string_views(strings: Seq<String>) -> Seq<Seq<char>> {
    strings.map_values(|s: String| s@)
}

/// `m` is the mapping the anchor's stored fields describe.
pub open spec fn anchor_gives(anchor: AnchorAxis, m: Mapping) -> bool {
    parts_give(
        string_view(anchor.type_),
        anchor.t0,
        anchor.dt,
        vec_view(anchor.points),
        vec_view(anchor.values),
        Ok(m),
    )
}

/// The index of the first anchor called `name`, and its mapping when that
/// mapping is usable.
fn find(list: &[AnchorAxis], name: &str) -> (r: Option<(usize, Mapping)>)
    ensures
        match r {
            Some((i, m)) => i < list@.len() && first_named(list@, name@) == Some(i as int) && anchor_gives(
                list@[i as int],
                m,
            ) && m.well_formed(),
            None => !offers(list@, name@),
        },
{
    let mut i: usize = 0;
    while i < list.len()
        invariant
            i <= list@.len(),
            first_named(list@.subrange(0, i as int), name@) is None,
        decreases list@.len() - i,
    {
        assert(list@.subrange(0, i + 1).drop_last() == list@.subrange(0, i as int));
        if str_eq(list[i].name.as_str(), name) {
            proof {
                lemma_first_named_prefix(list@, i as int + 1, name@);
            }
            return match list[i].mapping() {
                Ok(m) => Some((i, m)),
                Err(_) => None,
            };
        }
        i = i + 1;
    }
    assert(list@.subrange(0, list@.len() as int) == list@);
    None
}

proof fn lemma_first_named_prefix(anchors: Seq<AnchorAxis>, n: int, name: Seq<char>)
    requires
        0 <= n <= anchors.len(),
        first_named(anchors.subrange(0, n), name) is Some,
    ensures
        first_named(anchors, name) == first_named(anchors.subrange(0, n), name),
    decreases anchors.len(),
{
    if n < anchors.len() {
        assert(anchors.drop_last().subrange(0, n) == anchors.subrange(0, n));
        lemma_first_named_prefix(anchors.drop_last(), n, name);
    } else {
        assert(anchors.subrange(0, n) == anchors);
    }
}

fn anchor_name_list(anchors: &[AnchorAxis]) -> (r: Vec<String>)
    ensures
        string_views(r@) == anchor_names(anchors@),
{
    let mut out: Vec<String> = Vec::new();
    let mut i: usize = 0;
    while i < anchors.len()
        invariant
            i <= anchors@.len(),
            string_views(out@) == anchor_names(anchors@.subrange(0, i as int)),
        decreases anchors@.len() - i,
    {
        let ghost before = out@;
        let name = anchors[i].name.clone();
        assert(name == anchors@[i as int].name);
        out.push(name);
        assert(out@ == before.push(anchors@[i as int].name));
        assert(anchors@.subrange(0, i + 1) == anchors@.subrange(0, i as int).push(anchors@[i as int]));
        assert(string_views(out@) =~= string_views(before).push(anchors@[i as int].name@));
        assert(anchor_names(anchors@.subrange(0, i + 1)) =~= anchor_names(
            anchors@.subrange(0, i as int),
        ).push(anchors@[i as int].name@));
        i = i + 1;
    }
    assert(anchors@.subrange(0, anchors@.len() as int) == anchors@);
    out
}

/// The outcome of selecting an anchor for one axis: the most preferred
/// name shared and recorded on both sides; failing that, a refusal naming
/// the most preferred shared name, which is synthetic somewhere; failing
/// that, a refusal listing what each side offers.
pub open spec fn selected(
    axis: &'static str,
    ours: Seq<AnchorAxis>,
    theirs: Seq<AnchorAxis>,
    preference: Seq<Seq<char>>,
    r: Result<(String, Mapping, Mapping), ReanchorError>,
) -> bool {
    match choice(ours, theirs, preference) {
        None => r matches Err(ReanchorError::NoSharedAnchor { axis: a, document_offers, revision_offers })
            && a == axis && string_views(document_offers@) == anchor_names(ours)
            && string_views(revision_offers@) == anchor_names(theirs),
        Some(p) => match recorded_choice(ours, theirs, preference) {
            None => r matches Err(ReanchorError::SyntheticOnly { axis: a, name }) && a == axis
                && name@ == preference[p],
            Some(q) => r matches Ok((name, from, to)) && name@ == preference[q]
                && anchor_gives(ours[first_named(ours, preference[q]).unwrap()], from)
                && anchor_gives(theirs[first_named(theirs, preference[q]).unwrap()], to)
                && from.well_formed() && to.well_formed(),
        },
    }
}

/// Pick the most preferred anchor axis usable on both sides and recorded on
/// both.
fn select(
    axis: &'static str,
    document_anchors: &[AnchorAxis],
    revision_anchors: &[AnchorAxis],
    preference: &[&str],
) -> (r: Result<(String, Mapping, Mapping), ReanchorError>)
    ensures
        selected(axis, document_anchors@, revision_anchors@, name_views(preference@), r),
{
    let ghost ours = document_anchors@;
    let ghost theirs = revision_anchors@;
    let ghost names = name_views(preference@);
    let mut first_shared: Option<usize> = None;
    let mut p: usize = 0;
    while p < preference.len()
        invariant
            p <= preference@.len(),
            ours == document_anchors@,
            theirs == revision_anchors@,
            names == name_views(preference@),
            recorded_choice(ours, theirs, names.subrange(0, p as int)) is None,
            match first_shared {
                Some(f) => f < p && choice(ours, theirs, names.subrange(0, p as int)) == Some(
                    f as int,
                ),
                None => choice(ours, theirs, names.subrange(0, p as int)) is None,
            },
        decreases preference@.len() - p,
    {
        let name = preference[p];
        assert(names.subrange(0, p + 1).drop_last() == names.subrange(0, p as int));
        assert(names.subrange(0, p + 1).last() == name@);
        match find(document_anchors, name) {
            None => {},
            Some((i, from)) => match find(revision_anchors, name) {
                None => {},
                Some((j, to)) => {
                    if first_shared.is_none() {
                        first_shared = Some(p);
                    }
                    if !document_anchors[i].synthetic && !revision_anchors[j].synthetic {
                        proof {
                            lemma_choice_prefix(ours, theirs, names, p as int + 1);
                            lemma_recorded_choice_prefix(ours, theirs, names, p as int + 1);
                        }
                        return Ok((name.to_string(), from, to));
                    }
                },
            },
        }
        p = p + 1;
    }
    assert(names.subrange(0, names.len() as int) == names);
    match first_shared {
        Some(f) => Err(ReanchorError::SyntheticOnly { axis, name: preference[f].to_string() }),
        None => Err(
            ReanchorError::NoSharedAnchor {
                axis,
                document_offers: anchor_name_list(document_anchors),
                revision_offers: anchor_name_list(revision_anchors),
            },
        ),
    }
}

proof fn lemma_recorded_choice_prefix(
    ours: Seq<AnchorAxis>,
    theirs: Seq<AnchorAxis>,
    preference: Seq<Seq<char>>,
    n: int,
)
    requires
        0 <= n <= preference.len(),
        recorded_choice(ours, theirs, preference.subrange(0, n)) is Some,
    ensures
        recorded_choice(ours, theirs, preference) == recorded_choice(
            ours,
            theirs,
            preference.subrange(0, n),
        ),
    decreases preference.len(),
{
    if n < preference.len() {
        assert(preference.drop_last().subrange(0, n) == preference.subrange(0, n));
        lemma_recorded_choice_prefix(ours, theirs, preference.drop_last(), n);
    } else {
        assert(preference.subrange(0, n) == preference);
    }
}

proof fn lemma_choice_prefix(
    ours: Seq<AnchorAxis>,
    theirs: Seq<AnchorAxis>,
    preference: Seq<Seq<char>>,
    n: int,
)
    requires
        0 <= n <= preference.len(),
        choice(ours, theirs, preference.subrange(0, n)) is Some,
    ensures
        choice(ours, theirs, preference) == choice(ours, theirs, preference.subrange(0, n)),
    decreases preference.len(),
{
    if n < preference.len() {
        assert(preference.drop_last().subrange(0, n) == preference.subrange(0, n));
        lemma_choice_prefix(ours, theirs, preference.drop_last(), n);
    } else {
        assert(preference.subrange(0, n) == preference);
    }
}

/// What re-anchoring did.
#[derive(Debug, Clone, PartialEq)]
pub struct ReanchorOutcome {
    pub document: Document,
    /// The anchor axis name actually used for each axis.
    pub x_anchor: String,
    pub y_anchor: String,
    /// Features dropped because a coordinate fell outside the target
    /// revision — typically picked in a region the new revision subsets away.
    pub dropped: Vec<DroppedFeature>,
    /// Always `true`: the format requires consumers to warn about a
    /// re-anchored `y` and never present it as exact.
    pub y_is_approximate: bool,
}

/// A re-anchored coordinate is kept only if it is finite and, where the
/// target mapping has a defined index range, inside it.
pub open spec fn lands_within(v: Binary64, bounds: Option<(Binary64, Binary64)>) -> bool {
    &&& v.is_finite_spec()
    &&& match bounds {
        Some((lo, hi)) => !v.less_than(lo) && !hi.less_than(v),
        None => true,
    }
}

/// `q` is `p` moved through the given mappings: both coordinates resolved by
/// `resolve`, both landing inside the target revision, and every further
/// element of the tuple kept.
pub open spec fn position_moved_by<R: Fn(&Mapping, &Mapping, Binary64) -> Binary64>(
    resolve: R,
    x_from: Mapping,
    x_to: Mapping,
    y_from: Mapping,
    y_to: Mapping,
    p: Position,
    q: Position,
) -> bool {
    &&& p.0@.len() >= 2
    &&& exists|nx: Binary64, ny: Binary64|
        #[trigger] call_ensures(resolve, (&x_from, &x_to, p.0@[0]), nx) && #[trigger] call_ensures(
            resolve,
            (&y_from, &y_to, p.0@[1]),
            ny,
        ) && lands_within(nx, x_to.index_bounds()) && lands_within(ny, y_to.index_bounds())
            && q.0@ == replaced_xy(p.0@, nx, ny)
}

/// `p` cannot be moved through the given mappings: it lacks a coordinate,
/// or a resolved coordinate falls outside the target revision.
pub open spec fn position_refused_by<R: Fn(&Mapping, &Mapping, Binary64) -> Binary64>(
    resolve: R,
    x_from: Mapping,
    x_to: Mapping,
    y_from: Mapping,
    y_to: Mapping,
    p: Position,
) -> bool {
    ||| p.0@.len() < 2
    ||| exists|nx: Binary64, ny: Binary64|
        #[trigger] call_ensures(resolve, (&x_from, &x_to, p.0@[0]), nx) && #[trigger] call_ensures(
            resolve,
            (&y_from, &y_to, p.0@[1]),
            ny,
        ) && !(lands_within(nx, x_to.index_bounds()) && lands_within(ny, y_to.index_bounds()))
}

/// The four anchors a re-anchoring goes through: the document's and the
/// target's anchor for `x`, then for `y`.
pub struct Route {
    pub x_ours: AnchorAxis,
    pub x_theirs: AnchorAxis,
    pub y_ours: AnchorAxis,
    pub y_theirs: AnchorAxis,
}

/// [`position_moved_by`], through the mappings the route's anchors give.
pub open spec fn moved_through<R: Fn(&Mapping, &Mapping, Binary64) -> Binary64>(
    resolve: R,
    route: Route,
    p: Position,
    q: Position,
) -> bool {
    exists|xf: Mapping, xt: Mapping, yf: Mapping, yt: Mapping|
        anchor_gives(route.x_ours, xf) && anchor_gives(route.x_theirs, xt) && anchor_gives(
            route.y_ours,
            yf,
        ) && anchor_gives(route.y_theirs, yt) && #[trigger] position_moved_by(
            resolve,
            xf,
            xt,
            yf,
            yt,
            p,
            q,
        )
}

/// [`position_refused_by`], through the mappings the route's anchors give.
pub open spec fn refused_through<R: Fn(&Mapping, &Mapping, Binary64) -> Binary64>(
    resolve: R,
    route: Route,
    p: Position,
) -> bool {
    exists|xf: Mapping, xt: Mapping, yf: Mapping, yt: Mapping|
        anchor_gives(route.x_ours, xf) && anchor_gives(route.x_theirs, xt) && anchor_gives(
            route.y_ours,
            yf,
        ) && anchor_gives(route.y_theirs, yt) && #[trigger] position_refused_by(
            resolve,
            xf,
            xt,
            yf,
            yt,
            p,
        )
}

/// `g` is `f` with its geometry re-anchored by `rel`, everything else kept.
pub open spec fn feature_moved(f: Feature, g: Feature, rel: spec_fn(Position, Position) -> bool) -> bool {
    &&& g.type_ == f.type_
    &&& g.properties == f.properties
    &&& g.extra == f.extra
    &&& geometry_corresponds(f.geometry, g.geometry, rel)
}

/// `d` records that the feature at `index` was dropped.
pub open spec fn records_drop(d: DroppedFeature, index: int, f: Feature) -> bool {
    &&& d.index == index
    &&& string_view(d.id) == f.id_spec()
    &&& string_view(d.label) == f.label_spec()
}

/// Each feature, in order, either became the next kept feature or the next
/// drop record: kept features are moved by `rel`, and a feature is dropped
/// only when one of its positions satisfies `refused`.
pub open spec fn sorted_out(
    features: Seq<Feature>,
    kept: Seq<Feature>,
    dropped: Seq<DroppedFeature>,
    rel: spec_fn(Position, Position) -> bool,
    refused: spec_fn(Position) -> bool,
) -> bool
    decreases features.len(),
{
    if features.len() == 0 {
        kept.len() == 0 && dropped.len() == 0
    } else {
        let n = features.len() - 1;
        ||| kept.len() > 0 && feature_moved(features[n], kept.last(), rel) && sorted_out(
            features.drop_last(),
            kept.drop_last(),
            dropped,
            rel,
            refused,
        )
        ||| dropped.len() > 0 && records_drop(dropped.last(), n, features[n]) && some_position(
            features[n].geometry,
            refused,
        ) && sorted_out(features.drop_last(), kept, dropped.drop_last(), rel, refused)
    }
}

/// The anchors a declared axis offers (none when the axis is absent).
pub open spec fn declared_anchors(axis: Option<Axis>) -> Seq<AnchorAxis> {
    match axis {
        Some(a) => a.anchors_spec(),
        None => Seq::empty(),
    }
}

/// Everything of `out` but its features is `document`'s.
pub open spec fn same_but_features(out: Document, document: Document) -> bool {
    &&& out.key == document.key
    &&& out.schema == document.schema
    &&& out.schema_version == document.schema_version
    &&& out.date_modified == document.date_modified
    &&& out.source == document.source
    &&& same_coordinates(document.coordinates, out.coordinates)
    &&& out.meta == document.meta
    &&& out.extra == document.extra
}

fn move_position<R: Fn(&Mapping, &Mapping, Binary64) -> Binary64>(
    position: &Position,
    x_from: &Mapping,
    x_to: &Mapping,
    x_bounds: Option<(Binary64, Binary64)>,
    y_from: &Mapping,
    y_to: &Mapping,
    y_bounds: Option<(Binary64, Binary64)>,
    resolve: &R,
) -> (r: Option<Position>)
    requires
        forall|a: &Mapping, b: &Mapping, v: Binary64| call_requires(*resolve, (a, b, v)),
        x_bounds == x_to.index_bounds(),
        y_bounds == y_to.index_bounds(),
    ensures
        r matches Some(q) ==> position_moved_by(*resolve, *x_from, *x_to, *y_from, *y_to, *position, q),
        r is None ==> position_refused_by(*resolve, *x_from, *x_to, *y_from, *y_to, *position),
{
    let x = match position.x() {
        Some(x) => x,
        None => return None,
    };
    let y = match position.y() {
        Some(y) => y,
        None => return None,
    };
    let new_x = resolve(x_from, x_to, x);
    let new_y = resolve(y_from, y_to, y);
    if !new_x.is_finite() || !new_y.is_finite() {
        return None;
    }
    if let Some((lo, hi)) = x_bounds {
        if new_x.lt(&lo) || hi.lt(&new_x) {
            return None;
        }
    }
    if let Some((lo, hi)) = y_bounds {
        if new_y.lt(&lo) || hi.lt(&new_y) {
            return None;
        }
    }
    Some(position.with_xy(new_x, new_y))
}

fn copy_text(s: &Option<String>) -> (r: Option<String>)
    ensures
        r == *s,
{
    match s {
        Some(s) => Some(s.clone()),
        None => None,
    }
}

fn copy_object(o: &Option<JsonObject>) -> (r: Option<JsonObject>)
    ensures
        r == *o,
{
    match o {
        Some(o) => Some(o.clone()),
        None => None,
    }
}

fn copy_source(s: &Option<Source>) -> (r: Option<Source>)
    ensures
        r == *s,
{
    match s {
        Some(s) => Some(
            Source {
                id: copy_text(&s.id),
                revision_id: copy_text(&s.revision_id),
                n_traces: s.n_traces,
                n_samples: s.n_samples,
                extra: s.extra.clone(),
            },
        ),
        None => None,
    }
}

fn copy_list<T: Copy>(v: &Vec<T>) -> (r: Vec<T>)
    ensures
        r@ == v@,
{
    let mut out: Vec<T> = Vec::new();
    let mut i: usize = 0;
    while i < v.len()
        invariant
            i <= v@.len(),
            out@ == v@.subrange(0, i as int),
        decreases v@.len() - i,
    {
        out.push(v[i]);
        i = i + 1;
    }
    out
}

fn copy_optional_list<T: Copy>(v: &Option<Vec<T>>) -> (r: Option<Vec<T>>)
    ensures
        vec_view(r) == vec_view(*v),
{
    match v {
        Some(l) => Some(copy_list(l)),
        None => None,
    }
}

/// `b` holds what `a` holds, lists compared by their contents.
pub open spec fn same_anchor(a: AnchorAxis, b: AnchorAxis) -> bool {
    &&& b.name == a.name
    &&& b.unit == a.unit
    &&& b.type_ == a.type_
    &&& b.synthetic == a.synthetic
    &&& b.t0 == a.t0
    &&& b.dt == a.dt
    &&& vec_view(b.points) == vec_view(a.points)
    &&& b.interpolation == a.interpolation
    &&& vec_view(b.values) == vec_view(a.values)
    &&& b.extra == a.extra
}

/// [`same_anchor`], entry by entry.
pub open spec fn same_anchors(a: Seq<AnchorAxis>, b: Seq<AnchorAxis>) -> bool {
    &&& b.len() == a.len()
    &&& forall|i: int| 0 <= i < a.len() ==> #[trigger] same_anchor(a[i], b[i])
}

/// `b` holds what `a` holds, lists compared by their contents.
pub open spec fn same_axis(a: Option<Axis>, b: Option<Axis>) -> bool {
    match (a, b) {
        (None, None) => true,
        (Some(a), Some(b)) => {
            &&& b.primary == a.primary
            &&& same_anchors(a.anchor@, b.anchor@)
            &&& same_anchors(a.fallback@, b.fallback@)
            &&& b.extra == a.extra
        },
        _ => false,
    }
}

/// `b` holds what `a` holds, lists compared by their contents.
pub open spec fn same_coordinates(a: Option<Coordinates>, b: Option<Coordinates>) -> bool {
    match (a, b) {
        (None, None) => true,
        (Some(a), Some(b)) => {
            &&& b.space == a.space
            &&& b.convention == a.convention
            &&& match (a.axes, b.axes) {
                (None, None) => true,
                (Some(x), Some(y)) => same_axis(x.x, y.x) && same_axis(x.y, y.y) && y.extra
                    == x.extra,
                _ => false,
            }
            &&& b.extra == a.extra
        },
        _ => false,
    }
}

fn copy_anchor(a: &AnchorAxis) -> (r: AnchorAxis)
    ensures
        same_anchor(*a, r),
{
    AnchorAxis {
        name: a.name.clone(),
        unit: copy_text(&a.unit),
        type_: copy_text(&a.type_),
        synthetic: a.synthetic,
        t0: a.t0,
        dt: a.dt,
        points: copy_optional_list(&a.points),
        interpolation: copy_text(&a.interpolation),
        values: copy_optional_list(&a.values),
        extra: a.extra.clone(),
    }
}

fn copy_anchors(list: &Vec<AnchorAxis>) -> (r: Vec<AnchorAxis>)
    ensures
        same_anchors(list@, r@),
{
    let mut out: Vec<AnchorAxis> = Vec::new();
    let mut i: usize = 0;
    while i < list.len()
        invariant
            i <= list@.len(),
            out@.len() == i,
            forall|j: int| 0 <= j < i ==> #[trigger] same_anchor(list@[j], out@[j]),
        decreases list@.len() - i,
    {
        out.push(copy_anchor(&list[i]));
        i = i + 1;
    }
    out
}

fn copy_axis(axis: &Option<Axis>) -> (r: Option<Axis>)
    ensures
        same_axis(*axis, r),
{
    match axis {
        Some(a) => Some(
            Axis {
                primary: match &a.primary {
                    Some(p) => Some(
                        PrimaryAxis {
                            name: copy_text(&p.name),
                            unit: copy_text(&p.unit),
                            extra: p.extra.clone(),
                        },
                    ),
                    None => None,
                },
                anchor: copy_anchors(&a.anchor),
                fallback: copy_anchors(&a.fallback),
                extra: a.extra.clone(),
            },
        ),
        None => None,
    }
}

fn copy_coordinates(c: &Option<Coordinates>) -> (r: Option<Coordinates>)
    ensures
        same_coordinates(*c, r),
{
    match c {
        Some(c) => Some(
            Coordinates {
                space: copy_text(&c.space),
                convention: match &c.convention {
                    Some(v) => Some(
                        Convention {
                            origin: copy_text(&v.origin),
                            indexing: copy_text(&v.indexing),
                            pixel_reference: copy_text(&v.pixel_reference),
                            axis_directions: copy_object(&v.axis_directions),
                            extra: v.extra.clone(),
                        },
                    ),
                    None => None,
                },
                axes: match &c.axes {
                    Some(a) => Some(
                        Axes { x: copy_axis(&a.x), y: copy_axis(&a.y), extra: a.extra.clone() },
                    ),
                    None => None,
                },
                extra: c.extra.clone(),
            },
        ),
        None => None,
    }
}

fn owned_text(s: Option<&str>) -> (r: Option<String>)
    ensures
        string_view(r) == str_view(s),
{
    match s {
        Some(s) => Some(s.to_string()),
        None => None,
    }
}

/// The axes a document declares, if it declares any.
pub open spec fn declared_axes(document: Document) -> Option<crate::document::Axes> {
    match document.coordinates {
        Some(c) => c.axes,
        None => None,
    }
}

/// The anchors the chosen names select on each side.
pub open spec fn route_of(
    xs: Seq<AnchorAxis>,
    tx: Seq<AnchorAxis>,
    ys: Seq<AnchorAxis>,
    ty: Seq<AnchorAxis>,
    x_name: Seq<char>,
    y_name: Seq<char>,
) -> Route {
    Route {
        x_ours: xs[first_named(xs, x_name).unwrap()],
        x_theirs: tx[first_named(tx, x_name).unwrap()],
        y_ours: ys[first_named(ys, y_name).unwrap()],
        y_theirs: ty[first_named(ty, y_name).unwrap()],
    }
}

/// What [`reanchor`] returns for `document` and `target`.
pub open spec fn reanchored<R: Fn(&Mapping, &Mapping, Binary64) -> Binary64>(
    document: Document,
    target: RevisionAxes,
    resolve: R,
    r: Result<ReanchorOutcome, ReanchorError>,
) -> bool {
    match declared_axes(document) {
        None => r == Err::<ReanchorOutcome, ReanchorError>(ReanchorError::NoCoordinates),
        Some(axes) => {
            let xs = declared_anchors(axes.x);
            let ys = declared_anchors(axes.y);
            let xp = name_views(X_ANCHOR_PREFERENCE@);
            let yp = name_views(Y_ANCHOR_PREFERENCE@);
            match (choice(xs, target.x@, xp), choice(ys, target.y@, yp)) {
                (None, _) => r matches Err(
                    ReanchorError::NoSharedAnchor { axis, document_offers, revision_offers },
                ) && axis@ == "x"@ && string_views(document_offers@) == anchor_names(xs)
                    && string_views(revision_offers@) == anchor_names(target.x@),
                (Some(_), None) => r matches Err(
                    ReanchorError::NoSharedAnchor { axis, document_offers, revision_offers },
                ) && axis@ == "y"@ && string_views(document_offers@) == anchor_names(ys)
                    && string_views(revision_offers@) == anchor_names(target.y@),
                (Some(px), Some(py)) => match (
                    recorded_choice(xs, target.x@, xp),
                    recorded_choice(ys, target.y@, yp),
                ) {
                    (None, _) => r matches Err(ReanchorError::SyntheticOnly { axis, name })
                        && axis@ == "x"@ && name@ == xp[px],
                    (Some(_), None) => r matches Err(ReanchorError::SyntheticOnly { axis, name })
                        && axis@ == "y"@ && name@ == yp[py],
                    (Some(qx), Some(qy)) => {
                        let route = route_of(xs, target.x@, ys, target.y@, xp[qx], yp[qy]);
                        r matches Ok(out) && out.x_anchor@ == xp[qx] && out.y_anchor@ == yp[qy]
                            && out.y_is_approximate && same_but_features(out.document, document)
                            && sorted_out(
                            document.features@,
                            out.document.features@,
                            out.dropped@,
                            |p: Position, q: Position| moved_through(resolve, route, p, q),
                            |p: Position| refused_through(resolve, route, p),
                        )
                    },
                },
            }
        },
    }
}

/// Apply `document` to the revision described by `target`.
///
/// For each axis the most preferred anchor name that both sides offer
/// usably and that neither side marks synthetic is chosen. With no shared
/// name, or with every shared name synthetic on some side, the document is
/// refused: `x` before `y`, and a missing shared name before a synthetic
/// one. A synthetic axis is only meaningful across revisions if the same
/// synthesis rule applies to both, which cannot be checked here. Each coordinate `v` then becomes
/// `resolve(from, to, v)`: the index on the target whose anchor value under
/// `to` is the value `from` gives `v`, which is evaluation and inversion of
/// the two mappings in floating point. A feature with a coordinate that
/// does not resolve to a finite index inside the target's index range is
/// dropped and reported, never clamped.
#[verifier::loop_isolation(false)]
pub fn reanchor<R: Fn(&Mapping, &Mapping, Binary64) -> Binary64>(
    document: &Document,
    target: &RevisionAxes,
    resolve: &R,
) -> (r: Result<ReanchorOutcome, ReanchorError>)
    requires
        forall|a: &Mapping, b: &Mapping, v: Binary64| call_requires(*resolve, (a, b, v)),
    ensures
        reanchored(*document, *target, *resolve, r),
{
    let axes = match &document.coordinates {
        Some(c) => match &c.axes {
            Some(a) => a,
            None => return Err(ReanchorError::NoCoordinates),
        },
        None => return Err(ReanchorError::NoCoordinates),
    };
    let none: Vec<AnchorAxis> = Vec::new();
    let x_ours: &[AnchorAxis] = match &axes.x {
        Some(a) => a.anchors(),
        None => none.as_slice(),
    };
    let y_ours: &[AnchorAxis] = match &axes.y {
        Some(a) => a.anchors(),
        None => none.as_slice(),
    };
    let ghost xs = declared_anchors(axes.x);
    let ghost ys = declared_anchors(axes.y);
    assert(x_ours@ == xs);
    assert(y_ours@ == ys);
    let x_choice = select("x", x_ours, target.x.as_slice(), X_ANCHOR_PREFERENCE.as_slice());
    let y_choice = select("y", y_ours, target.y.as_slice(), Y_ANCHOR_PREFERENCE.as_slice());
    let ((x_name, x_from, x_to), (y_name, y_from, y_to)) = match (x_choice, y_choice) {
        (Err(ReanchorError::NoSharedAnchor { axis, document_offers, revision_offers }), _) => {
            return Err(ReanchorError::NoSharedAnchor { axis, document_offers, revision_offers });
        },
        (_, Err(ReanchorError::NoSharedAnchor { axis, document_offers, revision_offers })) => {
            return Err(ReanchorError::NoSharedAnchor { axis, document_offers, revision_offers });
        },
        (Err(e), _) => return Err(e),
        (_, Err(e)) => return Err(e),
        (Ok(x), Ok(y)) => (x, y),
    };

    let x_bounds = x_to.index_range();
    let y_bounds = y_to.index_range();
    let ghost xp = name_views(X_ANCHOR_PREFERENCE@);
    let ghost yp = name_views(Y_ANCHOR_PREFERENCE@);
    let ghost px = recorded_choice(xs, target.x@, xp).unwrap();
    let ghost py = recorded_choice(ys, target.y@, yp).unwrap();
    let ghost route = route_of(xs, target.x@, ys, target.y@, xp[px], yp[py]);
    let ghost rel = |p: Position, q: Position| moved_through(*resolve, route, p, q);
    let ghost refused = |p: Position| refused_through(*resolve, route, p);

    let xf = &x_from;
    let xt = &x_to;
    let yf = &y_from;
    let yt = &y_to;
    let remap = |position: &Position| -> (moved: Option<Position>)
        requires
            forall|a: &Mapping, b: &Mapping, v: Binary64| call_requires(*resolve, (a, b, v)),
            x_bounds == xt.index_bounds(),
            y_bounds == yt.index_bounds(),
        ensures
            moved matches Some(q) ==> position_moved_by(*resolve, *xf, *xt, *yf, *yt, *position, q),
            moved is None ==> position_refused_by(*resolve, *xf, *xt, *yf, *yt, *position),
        { move_position(position, xf, xt, x_bounds, yf, yt, y_bounds, resolve) };

    let features = &document.features;
    let mut kept: Vec<Feature> = Vec::new();
    let mut dropped: Vec<DroppedFeature> = Vec::new();
    let mut k: usize = 0;
    while k < features.len()
        invariant
            k <= features@.len(),
            sorted_out(features@.subrange(0, k as int), kept@, dropped@, rel, refused),
        decreases features@.len() - k,
    {
        let feature = &features[k];
        assert(features@.subrange(0, k + 1).drop_last() == features@.subrange(0, k as int));
        match feature.geometry.try_map_positions(&remap) {
            Some(geometry) => {
                proof {
                    assert forall|p: Position, q: Position| #[trigger]
                        call_ensures(remap, (&p,), Some(q)) implies rel(p, q) by {
                        assert(position_moved_by(*resolve, x_from, x_to, y_from, y_to, p, q));
                    }
                    lemma_mapped_geometry_corresponds(remap, feature.geometry, geometry, rel);
                }
                let ghost before = kept@;
                kept.push(
                    Feature {
                        type_: feature.type_.clone(),
                        geometry,
                        properties: copy_object(&feature.properties),
                        extra: feature.extra.clone(),
                    },
                );
                assert(kept@.drop_last() == before);
            },
            None => {
                proof {
                    let i = choose|i: int|
                        0 <= i < feature.geometry.all_positions().len() && #[trigger] call_ensures(
                            remap,
                            (&feature.geometry.all_positions()[i],),
                            None,
                        );
                    assert(refused(feature.geometry.all_positions()[i]));
                }
                let ghost before = dropped@;
                dropped.push(
                    DroppedFeature {
                        index: k,
                        id: owned_text(feature.id()),
                        label: owned_text(feature.label()),
                    },
                );
                assert(dropped@.drop_last() == before);
            },
        }
        k = k + 1;
    }
    assert(features@.subrange(0, features@.len() as int) == features@);
    let out = Document {
        key: document.key.clone(),
        features: kept,
        schema: copy_text(&document.schema),
        schema_version: copy_text(&document.schema_version),
        date_modified: copy_text(&document.date_modified),
        source: copy_source(&document.source),
        coordinates: copy_coordinates(&document.coordinates),
        meta: copy_object(&document.meta),
        extra: document.extra.clone(),
    };
    Ok(
        ReanchorOutcome {
            document: out,
            x_anchor: x_name,
            y_anchor: y_name,
            dropped,
            y_is_approximate: true,
        },
    )
}

/// The anchor name chosen for an axis is the most preferred one that both
/// sides offer usably: it is shared, and no name earlier in the preference
/// order is. When nothing is chosen, no name in the preference order is
/// shared.
pub proof fn lemma_choice_is_most_preferred(
    ours: Seq<AnchorAxis>,
    theirs: Seq<AnchorAxis>,
    preference: Seq<Seq<char>>,
)
    ensures
        choice(ours, theirs, preference) matches Some(p) ==> 0 <= p < preference.len() && shared(
            ours,
            theirs,
            preference[p],
        ) && forall|q: int| 0 <= q < p ==> !#[trigger] shared(ours, theirs, preference[q]),
        choice(ours, theirs, preference) is None ==> forall|q: int|
            0 <= q < preference.len() ==> !#[trigger] shared(ours, theirs, preference[q]),
    decreases preference.len(),
{
    if preference.len() > 0 {
        let front = preference.drop_last();
        lemma_choice_is_most_preferred(ours, theirs, front);
        assert forall|q: int| 0 <= q < front.len() implies #[trigger] preference[q] == front[q] by {}
    }
}

/// Sorting features into kept and dropped loses none and invents none:
/// there are as many kept features and drop records together as there were
/// features, the drop records name features in ascending order, and each
/// names a feature that really was refused, by its id and label.
pub proof fn lemma_every_feature_kept_or_reported(
    features: Seq<Feature>,
    kept: Seq<Feature>,
    dropped: Seq<DroppedFeature>,
    rel: spec_fn(Position, Position) -> bool,
    refused: spec_fn(Position) -> bool,
)
    requires
        sorted_out(features, kept, dropped, rel, refused),
    ensures
        kept.len() + dropped.len() == features.len(),
        forall|i: int, j: int|
            0 <= i < j < dropped.len() ==> (#[trigger] dropped[i]).index < (#[trigger] dropped[j]).index,
        forall|i: int|
            0 <= i < dropped.len() ==> {
                let d = #[trigger] dropped[i];
                &&& d.index < features.len()
                &&& records_drop(d, d.index as int, features[d.index as int])
                &&& some_position(features[d.index as int].geometry, refused)
            },
    decreases features.len(),
{
    if features.len() > 0 {
        let n = features.len() - 1;
        let front = features.drop_last();
        if kept.len() > 0 && feature_moved(features[n], kept.last(), rel) && sorted_out(
            front,
            kept.drop_last(),
            dropped,
            rel,
            refused,
        ) {
            lemma_every_feature_kept_or_reported(front, kept.drop_last(), dropped, rel, refused);
            assert forall|i: int| 0 <= i < dropped.len() implies #[trigger] features[dropped[i].index as int]
                == front[dropped[i].index as int] by {}
        } else {
            let rest = dropped.drop_last();
            lemma_every_feature_kept_or_reported(front, kept, rest, rel, refused);
            assert forall|i: int| 0 <= i < rest.len() implies #[trigger] features[rest[i].index as int]
                == front[rest[i].index as int] by {}
            assert forall|i: int| 0 <= i < dropped.len() - 1 implies #[trigger] dropped[i] == rest[i] by {}
        }
    }
}

/// The anchor name re-anchoring uses on an axis is the most preferred one
/// that both sides offer usably and neither marks synthetic; when nothing
/// is chosen, no name in the preference order is both shared and recorded.
pub proof fn lemma_recorded_choice_is_most_preferred(
    ours: Seq<AnchorAxis>,
    theirs: Seq<AnchorAxis>,
    preference: Seq<Seq<char>>,
)
    ensures
        recorded_choice(ours, theirs, preference) matches Some(p) ==> 0 <= p < preference.len()
            && shared_recorded(ours, theirs, preference[p]) && forall|q: int|
            0 <= q < p ==> !#[trigger] shared_recorded(ours, theirs, preference[q]),
        recorded_choice(ours, theirs, preference) is None ==> forall|q: int|
            0 <= q < preference.len() ==> !#[trigger] shared_recorded(ours, theirs, preference[q]),
    decreases preference.len(),
{
    if preference.len() > 0 {
        let front = preference.drop_last();
        lemma_recorded_choice_is_most_preferred(ours, theirs, front);
        assert forall|q: int| 0 <= q < front.len() implies #[trigger] preference[q] == front[q] by {}
    }
}

/// Re-anchoring never falls back to raw indices: it succeeds only for a
/// document that declares its axes, and on each axis through the most
/// preferred anchor name that both sides offer usably and neither marks
/// synthetic. It refuses as synthetic only when every name shared on that
/// axis is synthetic on some side. A success accounts for every feature,
/// kept or reported as dropped, changes nothing but the features, and
/// always marks `y` as approximate.
pub proof fn lemma_reanchor_never_falls_back<R: Fn(&Mapping, &Mapping, Binary64) -> Binary64>(
    document: Document,
    target: RevisionAxes,
    resolve: R,
    r: Result<ReanchorOutcome, ReanchorError>,
)
    requires
        reanchored(document, target, resolve, r),
    ensures
        r matches Ok(out) ==> {
            let axes = declared_axes(document).unwrap();
            let xs = declared_anchors(axes.x);
            let ys = declared_anchors(axes.y);
            let xp = name_views(X_ANCHOR_PREFERENCE@);
            let yp = name_views(Y_ANCHOR_PREFERENCE@);
            &&& declared_axes(document) is Some
            &&& recorded_choice(xs, target.x@, xp) matches Some(qx) && xp[qx] == out.x_anchor@
                && forall|k: int| 0 <= k < qx ==> !#[trigger] shared_recorded(xs, target.x@, xp[k])
            &&& recorded_choice(ys, target.y@, yp) matches Some(qy) && yp[qy] == out.y_anchor@
                && forall|k: int| 0 <= k < qy ==> !#[trigger] shared_recorded(ys, target.y@, yp[k])
            &&& shared_recorded(xs, target.x@, out.x_anchor@)
            &&& shared_recorded(ys, target.y@, out.y_anchor@)
            &&& out.document.features@.len() + out.dropped@.len() == document.features@.len()
            &&& same_but_features(out.document, document)
            &&& out.y_is_approximate
        },
        r matches Err(ReanchorError::SyntheticOnly { axis, name }) ==> declared_axes(document) is Some
            && (axis@ == "x"@ || axis@ == "y"@),
        r matches Err(ReanchorError::SyntheticOnly { axis, name }) ==> (axis@ == "x"@ ==> {
            let xs = declared_anchors(declared_axes(document).unwrap().x);
            let xp = name_views(X_ANCHOR_PREFERENCE@);
            &&& shared(xs, target.x@, name@)
            &&& forall|k: int|
                0 <= k < xp.len() ==> !#[trigger] shared_recorded(xs, target.x@, xp[k])
        }),
        r matches Err(ReanchorError::SyntheticOnly { axis, name }) ==> (axis@ == "y"@ ==> {
            let ys = declared_anchors(declared_axes(document).unwrap().y);
            let yp = name_views(Y_ANCHOR_PREFERENCE@);
            &&& shared(ys, target.y@, name@)
            &&& forall|k: int|
                0 <= k < yp.len() ==> !#[trigger] shared_recorded(ys, target.y@, yp[k])
        }),
        declared_axes(document) is None ==> r == Err::<ReanchorOutcome, ReanchorError>(
            ReanchorError::NoCoordinates,
        ),
{
    if declared_axes(document) is Some {
        let axes = declared_axes(document).unwrap();
        let xs = declared_anchors(axes.x);
        let ys = declared_anchors(axes.y);
        let xp = name_views(X_ANCHOR_PREFERENCE@);
        let yp = name_views(Y_ANCHOR_PREFERENCE@);
        lemma_choice_is_most_preferred(xs, target.x@, xp);
        lemma_choice_is_most_preferred(ys, target.y@, yp);
        lemma_recorded_choice_is_most_preferred(xs, target.x@, xp);
        lemma_recorded_choice_is_most_preferred(ys, target.y@, yp);
        reveal_strlit("x");
        reveal_strlit("y");
        assert("x"@ != "y"@) by {
            assert("x"@[0] != "y"@[0]);
        }
        if r is Ok {
            let qx = recorded_choice(xs, target.x@, xp).unwrap();
            let qy = recorded_choice(ys, target.y@, yp).unwrap();
            let route = route_of(xs, target.x@, ys, target.y@, xp[qx], yp[qy]);
            let out = r.unwrap();
            lemma_every_feature_kept_or_reported(
                document.features@,
                out.document.features@,
                out.dropped@,
                |p: Position, q: Position| moved_through(resolve, route, p, q),
                |p: Position| refused_through(resolve, route, p),
            );
        }
    }
}

proof fn lemma_kept_come_from_features(
    features: Seq<Feature>,
    kept: Seq<Feature>,
    dropped: Seq<DroppedFeature>,
    rel: spec_fn(Position, Position) -> bool,
    refused: spec_fn(Position) -> bool,
)
    requires
        sorted_out(features, kept, dropped, rel, refused),
    ensures
        forall|k: int|
            0 <= k < kept.len() ==> exists|j: int|
                0 <= j < features.len() && feature_moved(features[j], #[trigger] kept[k], rel),
    decreases features.len(),
{
    if features.len() > 0 {
        let n = features.len() - 1;
        let front = features.drop_last();
        if kept.len() > 0 && feature_moved(features[n], kept.last(), rel) && sorted_out(
            front,
            kept.drop_last(),
            dropped,
            rel,
            refused,
        ) {
            let rest = kept.drop_last();
            lemma_kept_come_from_features(front, rest, dropped, rel, refused);
            assert forall|k: int| 0 <= k < kept.len() implies exists|j: int|
                0 <= j < features.len() && feature_moved(features[j], #[trigger] kept[k], rel) by {
                if k < rest.len() {
                    assert(kept[k] == rest[k]);
                    let j = choose|j: int| 0 <= j < front.len() && feature_moved(front[j], rest[k], rel);
                    assert(features[j] == front[j]);
                } else {
                    assert(feature_moved(features[n], kept[k], rel));
                }
            }
        } else {
            lemma_kept_come_from_features(front, kept, dropped.drop_last(), rel, refused);
            assert forall|k: int| 0 <= k < kept.len() implies exists|j: int|
                0 <= j < features.len() && feature_moved(features[j], #[trigger] kept[k], rel) by {
                let j = choose|j: int| 0 <= j < front.len() && feature_moved(front[j], kept[k], rel);
                assert(features[j] == front[j]);
            }
        }
    }
}

proof fn lemma_one_mapping_range(a: AnchorAxis, m1: Mapping, m2: Mapping)
    requires
        anchor_gives(a, m1),
        anchor_gives(a, m2),
    ensures
        m1.index_bounds() == m2.index_bounds(),
{
    reveal_strlit("regular");
    reveal_strlit("tiepoints");
    reveal_strlit("explicit");
    assert("regular"@[0] != "tiepoints"@[0]);
    assert("regular"@[0] != "explicit"@[0]);
    assert("tiepoints"@[0] != "explicit"@[0]);
}

/// Re-anchoring keeps a feature only inside the target revision: every
/// position of every kept feature has an `x` and a `y`, both finite, and
/// each lies within the index range of the target's mapping for that axis
/// (the mapping the target's anchor of the chosen name describes), where
/// that mapping has a range. Nothing outside it is kept, on either axis.
pub proof fn lemma_kept_positions_lie_inside_the_target<
    R: Fn(&Mapping, &Mapping, Binary64) -> Binary64,
>(document: Document, target: RevisionAxes, resolve: R, r: Result<ReanchorOutcome, ReanchorError>)
    requires
        reanchored(document, target, resolve, r),
    ensures
        r matches Ok(out) ==> forall|k: int, i: int|
            0 <= k < out.document.features@.len() && 0 <= i
                < out.document.features@[k].geometry.all_positions().len() ==> {
                let q = #[trigger] out.document.features@[k].geometry.all_positions()[i];
                let tx = target.x@[first_named(target.x@, out.x_anchor@).unwrap()];
                let ty = target.y@[first_named(target.y@, out.y_anchor@).unwrap()];
                &&& q.0@.len() >= 2
                &&& q.0@[0].is_finite_spec()
                &&& q.0@[1].is_finite_spec()
                &&& forall|m: Mapping|
                    #[trigger] anchor_gives(tx, m) ==> (m.index_bounds() matches Some((lo, hi))
                        ==> !q.0@[0].less_than(lo) && !hi.less_than(q.0@[0]))
                &&& forall|m: Mapping|
                    #[trigger] anchor_gives(ty, m) ==> (m.index_bounds() matches Some((lo, hi))
                        ==> !q.0@[1].less_than(lo) && !hi.less_than(q.0@[1]))
            },
{
    if r is Ok {
        let out = r.unwrap();
        let axes = declared_axes(document).unwrap();
        let xs = declared_anchors(axes.x);
        let ys = declared_anchors(axes.y);
        let xp = name_views(X_ANCHOR_PREFERENCE@);
        let yp = name_views(Y_ANCHOR_PREFERENCE@);
        let qx = recorded_choice(xs, target.x@, xp).unwrap();
        let qy = recorded_choice(ys, target.y@, yp).unwrap();
        let route = route_of(xs, target.x@, ys, target.y@, xp[qx], yp[qy]);
        let rel = |p: Position, q: Position| moved_through(resolve, route, p, q);
        let refused = |p: Position| refused_through(resolve, route, p);
        let fs = document.features@;
        let kept = out.document.features@;
        lemma_kept_come_from_features(fs, kept, out.dropped@, rel, refused);
        assert forall|k: int, i: int|
            0 <= k < kept.len() && 0 <= i < kept[k].geometry.all_positions().len() implies {
            let q = #[trigger] out.document.features@[k].geometry.all_positions()[i];
            let tx = target.x@[first_named(target.x@, out.x_anchor@).unwrap()];
            let ty = target.y@[first_named(target.y@, out.y_anchor@).unwrap()];
            &&& q.0@.len() >= 2
            &&& q.0@[0].is_finite_spec()
            &&& q.0@[1].is_finite_spec()
            &&& forall|m: Mapping|
                #[trigger] anchor_gives(tx, m) ==> (m.index_bounds() matches Some((lo, hi))
                    ==> !q.0@[0].less_than(lo) && !hi.less_than(q.0@[0]))
            &&& forall|m: Mapping|
                #[trigger] anchor_gives(ty, m) ==> (m.index_bounds() matches Some((lo, hi))
                    ==> !q.0@[1].less_than(lo) && !hi.less_than(q.0@[1]))
        } by {
            let j = choose|j: int| 0 <= j < fs.len() && feature_moved(fs[j], kept[k], rel);
            lemma_corresponding_geometries_keep_shape(fs[j].geometry, kept[k].geometry, rel);
            let p = fs[j].geometry.all_positions()[i];
            let q = kept[k].geometry.all_positions()[i];
            assert(rel(p, q));
            let (xf, xt, yf, yt) = choose|xf: Mapping, xt: Mapping, yf: Mapping, yt: Mapping|
                anchor_gives(route.x_ours, xf) && anchor_gives(route.x_theirs, xt) && anchor_gives(
                    route.y_ours,
                    yf,
                ) && anchor_gives(route.y_theirs, yt) && #[trigger] position_moved_by(
                    resolve,
                    xf,
                    xt,
                    yf,
                    yt,
                    p,
                    q,
                );
            let (nx, ny) = choose|nx: Binary64, ny: Binary64|
                #[trigger] call_ensures(resolve, (&xf, &xt, p.0@[0]), nx) && #[trigger] call_ensures(
                    resolve,
                    (&yf, &yt, p.0@[1]),
                    ny,
                ) && lands_within(nx, xt.index_bounds()) && lands_within(ny, yt.index_bounds())
                    && q.0@ == replaced_xy(p.0@, nx, ny);
            assert(q.0@[0] == nx && q.0@[1] == ny);
            assert forall|m: Mapping| #[trigger] anchor_gives(route.x_theirs, m) implies (
            m.index_bounds() matches Some((lo, hi)) ==> !nx.less_than(lo) && !hi.less_than(nx)) by {
                lemma_one_mapping_range(route.x_theirs, xt, m);
            }
            assert forall|m: Mapping| #[trigger] anchor_gives(route.y_theirs, m) implies (
            m.index_bounds() matches Some((lo, hi)) ==> !ny.less_than(lo) && !hi.less_than(ny)) by {
                lemma_one_mapping_range(route.y_theirs, yt, m);
            }
        }
    }
}

/// `q` is what `resolve` answers for position `i` of some feature of
/// `features`: its `x` and `y` came back from `resolve` handed that
/// position's `x` and `y` with a mapping of `ours_x` then one of `theirs_x`
/// (and likewise for `y`), and its further elements are that position's.
pub open spec fn resolved_from<R: Fn(&Mapping, &Mapping, Binary64) -> Binary64>(
    resolve: R,
    features: Seq<Feature>,
    ours_x: AnchorAxis,
    theirs_x: AnchorAxis,
    ours_y: AnchorAxis,
    theirs_y: AnchorAxis,
    i: int,
    q: Position,
) -> bool {
    exists|j: int, xf: Mapping, xt: Mapping, yf: Mapping, yt: Mapping|
        #![trigger features[j], anchor_gives(ours_x, xf), anchor_gives(theirs_x, xt), anchor_gives(ours_y, yf), anchor_gives(theirs_y, yt)]
        0 <= j < features.len() && i < features[j].geometry.all_positions().len() && anchor_gives(
            ours_x,
            xf,
        ) && anchor_gives(theirs_x, xt) && anchor_gives(ours_y, yf) && anchor_gives(theirs_y, yt)
            && {
            let p = features[j].geometry.all_positions()[i];
            &&& p.0@.len() >= 2
            &&& call_ensures(resolve, (&xf, &xt, p.0@[0]), q.0@[0])
            &&& call_ensures(resolve, (&yf, &yt, p.0@[1]), q.0@[1])
            &&& q.0@ == p.0@.update(0, q.0@[0]).update(1, q.0@[1])
        }
}

/// Position `p` lacks a coordinate, or `resolve` answers, for its `x` or
/// its `y`, a coordinate that is not finite or lies outside the index range
/// of the mapping of `theirs_x` (or `theirs_y`).
pub open spec fn resolves_outside<R: Fn(&Mapping, &Mapping, Binary64) -> Binary64>(
    resolve: R,
    ours_x: AnchorAxis,
    theirs_x: AnchorAxis,
    ours_y: AnchorAxis,
    theirs_y: AnchorAxis,
    p: Position,
) -> bool {
    ||| p.0@.len() < 2
    ||| exists|xf: Mapping, xt: Mapping, yf: Mapping, yt: Mapping, nx: Binary64, ny: Binary64|
        anchor_gives(ours_x, xf) && anchor_gives(theirs_x, xt) && anchor_gives(ours_y, yf)
            && anchor_gives(theirs_y, yt) && #[trigger] call_ensures(
            resolve,
            (&xf, &xt, p.0@[0]),
            nx,
        ) && #[trigger] call_ensures(resolve, (&yf, &yt, p.0@[1]), ny) && !({
            &&& nx.is_finite_spec()
            &&& xt.index_bounds() matches Some((lo, hi)) ==> !nx.less_than(lo) && !hi.less_than(nx)
            &&& ny.is_finite_spec()
            &&& yt.index_bounds() matches Some((lo, hi)) ==> !ny.less_than(lo) && !hi.less_than(ny)
        })
}

/// Every re-anchored coordinate is what `resolve` answers for the original
/// one, and every drop has a reason. On success, each position of a kept
/// feature is, at the same place, a position of a document feature whose
/// `x` and `y` were handed to `resolve` with the document's and then the
/// target's mapping for the chosen anchor name, and came back as the new
/// `x` and `y`; further tuple elements are kept. Each dropped feature has a
/// position that lacks a coordinate, or for which `resolve` answered a
/// coordinate that is not finite or lies outside the target's index range.
pub proof fn lemma_reanchored_coordinates_come_from_resolve<
    R: Fn(&Mapping, &Mapping, Binary64) -> Binary64,
>(document: Document, target: RevisionAxes, resolve: R, r: Result<ReanchorOutcome, ReanchorError>)
    requires
        reanchored(document, target, resolve, r),
    ensures
        r matches Ok(out) ==> {
            let axes = declared_axes(document).unwrap();
            let xs = declared_anchors(axes.x);
            let ys = declared_anchors(axes.y);
            let dx = xs[first_named(xs, out.x_anchor@).unwrap()];
            let dy = ys[first_named(ys, out.y_anchor@).unwrap()];
            let tx = target.x@[first_named(target.x@, out.x_anchor@).unwrap()];
            let ty = target.y@[first_named(target.y@, out.y_anchor@).unwrap()];
            let fs = document.features@;
            &&& forall|k: int, i: int|
                0 <= k < out.document.features@.len() && 0 <= i
                    < out.document.features@[k].geometry.all_positions().len() ==> resolved_from(
                    resolve,
                    fs,
                    dx,
                    tx,
                    dy,
                    ty,
                    i,
                    #[trigger] out.document.features@[k].geometry.all_positions()[i],
                )
            &&& forall|d: int|
                0 <= d < out.dropped@.len() ==> exists|i: int|
                    0 <= i < fs[(#[trigger] out.dropped@[d]).index as int].geometry.all_positions().len()
                        && resolves_outside(
                        resolve,
                        dx,
                        tx,
                        dy,
                        ty,
                        #[trigger] fs[out.dropped@[d].index as int].geometry.all_positions()[i],
                    )
        },
{
    if r is Ok {
        let out = r.unwrap();
        let axes = declared_axes(document).unwrap();
        let xs = declared_anchors(axes.x);
        let ys = declared_anchors(axes.y);
        let xp = name_views(X_ANCHOR_PREFERENCE@);
        let yp = name_views(Y_ANCHOR_PREFERENCE@);
        let qx = recorded_choice(xs, target.x@, xp).unwrap();
        let qy = recorded_choice(ys, target.y@, yp).unwrap();
        let route = route_of(xs, target.x@, ys, target.y@, xp[qx], yp[qy]);
        let rel = |p: Position, q: Position| moved_through(resolve, route, p, q);
        let refused = |p: Position| refused_through(resolve, route, p);
        let fs = document.features@;
        let kept = out.document.features@;
        lemma_kept_come_from_features(fs, kept, out.dropped@, rel, refused);
        lemma_every_feature_kept_or_reported(fs, kept, out.dropped@, rel, refused);
        assert(out.x_anchor@ == xp[qx] && out.y_anchor@ == yp[qy]);
        let dx = route.x_ours;
        let dy = route.y_ours;
        let tx = route.x_theirs;
        let ty = route.y_theirs;
        assert(dx == xs[first_named(xs, out.x_anchor@).unwrap()]);
        assert(dy == ys[first_named(ys, out.y_anchor@).unwrap()]);
        assert(tx == target.x@[first_named(target.x@, out.x_anchor@).unwrap()]);
        assert(ty == target.y@[first_named(target.y@, out.y_anchor@).unwrap()]);
        assert forall|k: int, i: int|
            0 <= k < kept.len() && 0 <= i < kept[k].geometry.all_positions().len() implies resolved_from(
            resolve,
            fs,
            dx,
            tx,
            dy,
            ty,
            i,
            #[trigger] out.document.features@[k].geometry.all_positions()[i],
        ) by {
            let j = choose|j: int| 0 <= j < fs.len() && feature_moved(fs[j], kept[k], rel);
            lemma_corresponding_geometries_keep_shape(fs[j].geometry, kept[k].geometry, rel);
            let p = fs[j].geometry.all_positions()[i];
            let q = kept[k].geometry.all_positions()[i];
            assert(rel(p, q));
            let (xf, xt, yf, yt) = choose|xf: Mapping, xt: Mapping, yf: Mapping, yt: Mapping|
                anchor_gives(dx, xf) && anchor_gives(tx, xt) && anchor_gives(dy, yf)
                    && anchor_gives(ty, yt) && #[trigger] position_moved_by(
                    resolve,
                    xf,
                    xt,
                    yf,
                    yt,
                    p,
                    q,
                );
            assert(q.0@ == p.0@.update(0, q.0@[0]).update(1, q.0@[1]));
            assert(p == fs[j].geometry.all_positions()[i]);
        }
        assert forall|d: int| 0 <= d < out.dropped@.len() implies exists|i: int|
            0 <= i < fs[(#[trigger] out.dropped@[d]).index as int].geometry.all_positions().len()
                && resolves_outside(
                resolve,
                dx,
                tx,
                dy,
                ty,
                #[trigger] fs[out.dropped@[d].index as int].geometry.all_positions()[i],
            ) by {
            let g = fs[out.dropped@[d].index as int].geometry;
            assert(some_position(g, refused));
            let i = choose|i: int| 0 <= i < g.all_positions().len() && #[trigger] refused(
                g.all_positions()[i],
            );
            let p = g.all_positions()[i];
            assert(refused_through(resolve, route, p));
            let (xf, xt, yf, yt) = choose|xf: Mapping, xt: Mapping, yf: Mapping, yt: Mapping|
                anchor_gives(dx, xf) && anchor_gives(tx, xt) && anchor_gives(dy, yf)
                    && anchor_gives(ty, yt) && #[trigger] position_refused_by(
                    resolve,
                    xf,
                    xt,
                    yf,
                    yt,
                    p,
                );
            if p.0@.len() >= 2 {
                let (nx, ny) = choose|nx: Binary64, ny: Binary64|
                    #[trigger] call_ensures(resolve, (&xf, &xt, p.0@[0]), nx)
                        && #[trigger] call_ensures(resolve, (&yf, &yt, p.0@[1]), ny) && !(
                    lands_within(nx, xt.index_bounds()) && lands_within(ny, yt.index_bounds()));
                assert(resolves_outside(resolve, dx, tx, dy, ty, p));
            }
            assert(resolves_outside(resolve, dx, tx, dy, ty, fs[out.dropped@[d].index as int].geometry.all_positions()[i]));
        }
    }
}

} // verus!
