//! The gprinterp document and its parts.
//!
//! Every struct carries an `extra` object holding the members it does not
//! model. The format requires readers to preserve unknown fields at all
//! levels, so a producer that adds a field this version does not model must
//! still find it intact after a read/write cycle.

use vstd::prelude::*;

use crate::binary64::Binary64;
use crate::geometry::{referenced, Geometry};
use crate::json::{json_object_strings, object_get_str, str_eq, string_entry, JsonObject};
use crate::mapping::{
    parts_give, parts_usable, str_view, Mapping, MappingError, Tiepoint,
};

verus! {

/// A gprinterp document.
#[derive(Debug, Clone, PartialEq)]
pub struct Document {
    /// Uniquely identifies the target radargram within the producer's scope.
    pub key: String,
    /// Always held canonically as an array.
    pub features: Vec<Feature>,
    pub schema: Option<String>,
    pub schema_version: Option<String>,
    pub date_modified: Option<String>,
    pub source: Option<Source>,
    pub coordinates: Option<Coordinates>,
    pub meta: Option<JsonObject>,
    pub extra: JsonObject,
}

/// A GeoJSON Feature.
#[derive(Debug, Clone, PartialEq)]
pub struct Feature {
    pub type_: String,
    pub geometry: Geometry,
    pub properties: Option<JsonObject>,
    pub extra: JsonObject,
}

/// Radargram linkage.
#[derive(Debug, Clone, PartialEq, Default)]
pub struct Source {
    /// The conceptual radargram; stable across reprocessing.
    pub id: Option<String>,
    /// The specific processed revision; changes on every reprocess.
    pub revision_id: Option<String>,
    pub n_traces: Option<u64>,
    pub n_samples: Option<u64>,
    pub extra: JsonObject,
}

/// Coordinate semantics and mappings.
#[derive(Debug, Clone, PartialEq, Default)]
pub struct Coordinates {
    pub space: Option<String>,
    pub convention: Option<Convention>,
    pub axes: Option<Axes>,
    pub extra: JsonObject,
}

/// Indexing conventions. The permitted values are fixed; see
/// [`crate::validate`], which rejects anything else rather than
/// reinterpreting it.
#[derive(Debug, Clone, PartialEq, Default)]
pub struct Convention {
    pub origin: Option<String>,
    pub indexing: Option<String>,
    pub pixel_reference: Option<String>,
    pub axis_directions: Option<JsonObject>,
    pub extra: JsonObject,
}

#[derive(Debug, Clone, PartialEq, Default)]
pub struct Axes {
    pub x: Option<Axis>,
    pub y: Option<Axis>,
    pub extra: JsonObject,
}

/// One axis: the units the geometry is stored in, plus any anchor mappings.
#[derive(Debug, Clone, PartialEq, Default)]
pub struct Axis {
    pub primary: Option<PrimaryAxis>,
    /// Anchor mappings, in the producer's preference order.
    pub anchor: Vec<AnchorAxis>,
    /// The pre-0.1 name for `anchor`, accepted on read.
    pub fallback: Vec<AnchorAxis>,
    pub extra: JsonObject,
}

#[derive(Debug, Clone, PartialEq, Default)]
pub struct PrimaryAxis {
    pub name: Option<String>,
    pub unit: Option<String>,
    pub extra: JsonObject,
}

/// An anchor axis: a named, invariant quantity plus the mapping from index
/// to it.
///
/// The mapping's fields sit alongside `name`/`unit`/`synthetic` in the same
/// JSON object, so they are stored flat here and interpreted on demand by
/// [`AnchorAxis::mapping`]. Keeping structural reading separate from
/// semantic validation is what lets an unusable mapping still round-trip.
#[derive(Debug, Clone, PartialEq, Default)]
pub struct AnchorAxis {
    pub name: String,
    pub unit: Option<String>,
    pub type_: Option<String>,
    /// `true` when the producer fabricated these values rather than the
    /// instrument recording them.
    pub synthetic: bool,
    pub t0: Option<Binary64>,
    pub dt: Option<Binary64>,
    pub points: Option<Vec<Tiepoint>>,
    pub interpolation: Option<String>,
    pub values: Option<Vec<Binary64>>,
    pub extra: JsonObject,
}

/// The characters of an optional string.
pub open spec fn string_view(s: Option<String>) -> Option<Seq<char>> {
    match s {
        Some(s) => Some(s@),
        None => None,
    }
}

/// The contents of an optional vector.
pub open spec fn vec_view<T>(v: Option<Vec<T>>) -> Option<Seq<T>> {
    match v {
        Some(v) => Some(v@),
        None => None,
    }
}

/// Whether a value is `false`: `synthetic` is written out only when set.
pub fn is_false(b: &bool) -> (r: bool)
    ensures
        r == !*b,
{
    !*b
}

impl Feature {
    /// `properties.label`, the layer name, when it is a string.
    pub open spec fn label_spec(&self) -> Option<Seq<char>> {
        match self.properties {
            Some(p) => string_entry(p, "label"@),
            None => None,
        }
    }

    /// `properties.id`, the stable identity, when it is a
    /// string.
    pub open spec fn id_spec(&self) -> Option<Seq<char>> {
        match self.properties {
            Some(p) => string_entry(p, "id"@),
            None => None,
        }
    }

    /// `properties.label`: the layer name.
    pub fn label(&self) -> (r: Option<&str>)
        ensures
            str_view(r) == self.label_spec(),
    {
        match &self.properties {
            Some(p) => object_get_str(p, "label"),
            None => None,
        }
    }

    /// `properties.id`: stable identity across edits.
    pub fn id(&self) -> (r: Option<&str>)
        ensures
            str_view(r) == self.id_spec(),
    {
        match &self.properties {
            Some(p) => object_get_str(p, "id"),
            None => None,
        }
    }
}

impl Axis {
    /// The anchors in force: `anchor`, or the deprecated `fallback` when
    /// `anchor` is empty.
    pub open spec fn anchors_spec(&self) -> Seq<AnchorAxis> {
        if self.anchor@.len() == 0 {
            self.fallback@
        } else {
            self.anchor@
        }
    }

    /// Anchor mappings from `anchor`, falling back to the deprecated
    /// `fallback` key when `anchor` is absent.
    pub fn anchors(&self) -> (r: &[AnchorAxis])
        ensures
            r@ == self.anchors_spec(),
    {
        if self.anchor.len() == 0 {
            self.fallback.as_slice()
        } else {
            self.anchor.as_slice()
        }
    }
}

impl AnchorAxis {
    /// Whether the stored mapping fields make a usable mapping.
    pub open spec fn usable(&self) -> bool {
        parts_usable(
            string_view(self.type_),
            self.t0,
            self.dt,
            vec_view(self.points),
            vec_view(self.values),
        )
    }

    /// Interpret and validate the mapping.
    pub fn mapping(&self) -> (r: Result<Mapping, MappingError>)
        ensures
            r matches Ok(m) ==> m.well_formed(),
            r is Ok <==> self.usable(),
            parts_give(
                string_view(self.type_),
                self.t0,
                self.dt,
                vec_view(self.points),
                vec_view(self.values),
                r,
            ),
    {
        let mapping_type: Option<&str> = match &self.type_ {
            Some(t) => Some(t.as_str()),
            None => None,
        };
        let points: Option<&[Tiepoint]> = match &self.points {
            Some(p) => Some(p.as_slice()),
            None => None,
        };
        let values: Option<&[Binary64]> = match &self.values {
            Some(v) => Some(v.as_slice()),
            None => None,
        };
        Mapping::from_parts(mapping_type, self.t0, self.dt, points, values)
    }
}

/// The distinct layer names of `features`, in order of first appearance.
pub open spec fn layer_labels(features: Seq<Feature>) -> Seq<Option<Seq<char>>>
    decreases features.len(),
{
    if features.len() == 0 {
        Seq::empty()
    } else {
        let earlier = layer_labels(features.drop_last());
        let label = features.last().label_spec();
        if earlier.contains(label) {
            earlier
        } else {
            earlier.push(label)
        }
    }
}

/// The features of one layer, in document order.
pub open spec fn layer_members(features: Seq<Feature>, label: Option<Seq<char>>) -> Seq<Feature> {
    features.filter(|f: Feature| f.label_spec() == label)
}

/// The characters of each optional label.
pub open spec fn label_views(labels: Seq<Option<&str>>) -> Seq<Option<Seq<char>>> {
    labels.map_values(|l: Option<&str>| str_view(l))
}

/// Equality of two optional labels.
fn same_label(a: Option<&str>, b: Option<&str>) -> (r: bool)
    ensures
        r == (str_view(a) == str_view(b)),
{
    match (a, b) {
        (None, None) => true,
        (Some(a), Some(b)) => str_eq(a, b),
        _ => false,
    }
}

impl Document {
    /// Features grouped by layer name, in first-appearance order.
    ///
    /// `properties.label` is the layer; several features sharing
    /// a label are separate lines of one layer, and features
    /// without a label form the layer `None`. The position within each group
    /// is the line index a level-2 export reports, derived here rather than
    /// stored, since array position is not identity.
    #[verifier::loop_isolation(false)]
    pub fn layers(&self) -> (r: Vec<(Option<&str>, Vec<&Feature>)>)
        ensures
            r@.len() == layer_labels(self.features@).len(),
            forall|i: int|
                0 <= i < r@.len() ==> str_view(#[trigger] r@[i].0) == layer_labels(
                    self.features@,
                )[i] && referenced(r@[i].1@) == layer_members(
                    self.features@,
                    layer_labels(self.features@)[i],
                ),
    {
        let features = &self.features;
        let mut order: Vec<Option<&str>> = Vec::new();
        let mut k: usize = 0;
        while k < features.len()
            invariant
                k <= features@.len(),
                label_views(order@) == layer_labels(features@.subrange(0, k as int)),
            decreases features@.len() - k,
        {
            let label = features[k].label();
            let mut j: usize = 0;
            let mut seen = false;
            while j < order.len()
                invariant
                    j <= order@.len(),
                    seen == label_views(order@).subrange(0, j as int).contains(str_view(label)),
                decreases order@.len() - j,
            {
                let same = same_label(order[j], label);
                proof {
                    let views = label_views(order@);
                    let v = str_view(label);
                    let a = views.subrange(0, j as int);
                    let b = views.subrange(0, j + 1);
                    assert(b == a.push(views[j as int]));
                    assert(same == (views[j as int] == v));
                    if a.contains(v) {
                        let idx = choose|idx: int| 0 <= idx < a.len() && a[idx] == v;
                        assert(b[idx] == v);
                    }
                    if views[j as int] == v {
                        assert(b[j as int] == v);
                    }
                    if b.contains(v) {
                        let idx = choose|idx: int| 0 <= idx < b.len() && b[idx] == v;
                        if idx < j {
                            assert(a[idx] == v);
                        }
                    }
                }
                seen = seen || same;
                j = j + 1;
            }
            proof {
                assert(label_views(order@).subrange(0, order@.len() as int) == label_views(order@));
                assert(features@.subrange(0, k + 1).drop_last() == features@.subrange(0, k as int));
            }
            let ghost before = order@;
            if !seen {
                order.push(label);
                assert(label_views(order@) =~= label_views(before).push(str_view(label)));
            }
            k = k + 1;
        }
        assert(features@.subrange(0, features@.len() as int) == features@);
        let mut out: Vec<(Option<&str>, Vec<&Feature>)> = Vec::new();
        let mut i: usize = 0;
        while i < order.len()
            invariant
                i <= order@.len(),
                label_views(order@) == layer_labels(features@),
                out@.len() == i,
                forall|m: int|
                    0 <= m < i ==> str_view(#[trigger] out@[m].0) == layer_labels(features@)[m]
                        && referenced(out@[m].1@) == layer_members(
                        features@,
                        layer_labels(features@)[m],
                    ),
            decreases order@.len() - i,
        {
            let label = order[i];
            let ghost pred = |f: Feature| f.label_spec() == str_view(label);
            let mut members: Vec<&Feature> = Vec::new();
            let mut k: usize = 0;
            while k < features.len()
                invariant
                    k <= features@.len(),
                    referenced(members@) == features@.subrange(0, k as int).filter(pred),
                decreases features@.len() - k,
            {
                let ghost before = members@;
                let member = same_label(features[k].label(), label);
                assert(member == pred(features@[k as int]));
                if member {
                    members.push(&features[k]);
                    assert(referenced(members@) =~= referenced(before).push(features@[k as int]));
                }
                proof {
                    assert(features@.subrange(0, k + 1) == features@.subrange(0, k as int).push(
                        features@[k as int],
                    ));
                    features@.subrange(0, k as int).lemma_filter_push(features@[k as int], pred);
                }
                k = k + 1;
            }
            assert(features@.subrange(0, features@.len() as int) == features@);
            out.push((label, members));
            i = i + 1;
        }
        out
    }
}

/// The layers partition the features: no layer name is listed twice, every
/// feature's label is listed, and every listed layer has a member, so each
/// feature belongs to exactly one layer and no layer is empty.
pub proof fn lemma_layers_partition_features(features: Seq<Feature>)
    ensures
        layer_labels(features).no_duplicates(),
        forall|k: int|
            0 <= k < features.len() ==> layer_labels(features).contains(
                #[trigger] features[k].label_spec(),
            ),
        forall|i: int|
            0 <= i < layer_labels(features).len() ==> layer_members(
                features,
                #[trigger] layer_labels(features)[i],
            ).len() > 0,
    decreases features.len(),
{
    if features.len() > 0 {
        let front = features.drop_last();
        let last = features.last();
        lemma_layers_partition_features(front);
        let earlier = layer_labels(front);
        let labels = layer_labels(features);
        let pred = |f: Feature| f.label_spec() == last.label_spec();
        assert(features == front.push(last));
        assert forall|k: int| 0 <= k < features.len() implies labels.contains(
            #[trigger] features[k].label_spec(),
        ) by {
            if k < front.len() {
                assert(front[k] == features[k]);
                assert(earlier.contains(front[k].label_spec()));
                if !earlier.contains(last.label_spec()) {
                    let j = choose|j: int| 0 <= j < earlier.len() && earlier[j] == front[k].label_spec();
                    assert(labels[j] == front[k].label_spec());
                }
            } else if earlier.contains(last.label_spec()) {
            } else {
                assert(labels[labels.len() - 1] == last.label_spec());
            }
        }
        assert forall|i: int| 0 <= i < labels.len() implies layer_members(
            features,
            #[trigger] labels[i],
        ).len() > 0 by {
            let l = labels[i];
            let p = |f: Feature| f.label_spec() == l;
            front.lemma_filter_push(last, p);
            if i < earlier.len() {
                assert(labels[i] == earlier[i]);
                assert(layer_members(front, earlier[i]).len() > 0);
                assert(front.filter(p).len() > 0);
            } else {
                assert(l == last.label_spec());
                assert(p(last));
            }
        }
    }
}

/// A feature's layer name is the string its properties hold under `label`,
/// and nothing else: with no properties, no `label` member, or a `label`
/// that is not a string, it has none, whatever other members (such as `id`)
/// the properties hold. Its id is read the same way from `id` alone. So two
/// features whose properties hold the same under `label` are in the same
/// layer.
pub proof fn lemma_label_and_id_read_their_own_member(f: Feature, g: Feature)
    ensures
        f.properties is None ==> f.label_spec() is None && f.id_spec() is None,
        f.properties matches Some(p) ==> f.label_spec() == (if json_object_strings(p).dom().contains(
            "label"@,
        ) {
            json_object_strings(p)["label"@]
        } else {
            None
        }),
        f.properties matches Some(p) ==> f.id_spec() == (if json_object_strings(p).dom().contains(
            "id"@,
        ) {
            json_object_strings(p)["id"@]
        } else {
            None
        }),
        f.properties matches Some(p) ==> (g.properties matches Some(q) ==> (
        json_object_strings(p).dom().contains("label"@) == json_object_strings(q).dom().contains(
            "label"@,
        ) && json_object_strings(p)["label"@] == json_object_strings(q)["label"@]
            ==> f.label_spec() == g.label_spec())),
{
}

} // verus!
