//! Anchor axis mappings.
//!
//! Re-anchoring evaluates a mapping forwards on the revision an
//! interpretation was authored against and inverts it on the target revision.
//! A mapping is only usable if it is strictly increasing: a
//! non-monotone mapping has no single inverse. [`Mapping::from_parts`] is
//! where every mapping constraint is checked, and a mapping it returns
//! satisfies [`Mapping::well_formed`].

use vstd::prelude::*;

use crate::binary64::{encoding_of_u64, positive_zero, Binary64};
use crate::json::str_eq;

verus! {

/// A tiepoint in a [`Mapping::Tiepoints`] mapping.
#[derive(Debug, Clone, Copy, PartialEq)]
pub struct Tiepoint {
    /// Index along the primary (index) axis.
    pub trace: Binary64,
    /// Value in the anchor axis' unit.
    pub x: Binary64,
}

/// Which mapping constraint a mapping breaks, with the offending
/// values.
#[derive(Debug, Clone, PartialEq)]
pub enum Invalidity {
    /// `dt` is NaN, infinite, zero or negative.
    DtNotPositive { dt: Binary64 },
    /// `t0` is NaN or infinite.
    T0NotFinite { t0: Binary64 },
    /// Fewer than two tiepoints.
    TooFewTiepoints { count: usize },
    /// `points[index + 1].trace` does not exceed `points[index].trace`.
    TraceNotIncreasing { index: usize, previous: Binary64, next: Binary64 },
    /// `points[index + 1].x` does not exceed `points[index].x`.
    XNotIncreasing { index: usize, previous: Binary64, next: Binary64 },
    /// Fewer than two explicit values.
    TooFewValues { count: usize },
    /// `values[index + 1]` does not exceed `values[index]`.
    ValuesNotIncreasing { index: usize, previous: Binary64, next: Binary64 },
}

/// Why a mapping cannot be used for computation.
#[derive(Debug, Clone, PartialEq)]
pub enum MappingError {
    /// The `type` field was absent.
    MissingType,
    /// The `type` is not one of the types the format defines. Preserved on
    /// read, but unusable for re-anchoring.
    UnknownType(String),
    /// A field the mapping type requires was absent.
    MissingField { mapping_type: &'static str, field: &'static str },
    /// A mapping constraint was violated.
    NotInvertible(Invalidity),
}

/// An index-to-value mapping.
#[derive(Debug, Clone, PartialEq)]
pub enum Mapping {
    /// `value = t0 + index * dt`.
    Regular { t0: Binary64, dt: Binary64 },
    /// Piecewise-linear through explicit tiepoints.
    Tiepoints { points: Vec<Tiepoint> },
    /// One value per index.
    Explicit { values: Vec<Binary64> },
}

/// `values[i] < values[i + 1]`.
pub open spec fn increases_at(values: Seq<Binary64>, i: int) -> bool {
    values[i].less_than(values[i + 1])
}

/// Every neighbouring pair among the first `n + 1` values increases.
pub open spec fn increasing_prefix(values: Seq<Binary64>, n: int) -> bool {
    forall|i: int| 0 <= i < n ==> #[trigger] increases_at(values, i)
}

/// Strictly increasing, stated on neighbours as the format states it.
pub open spec fn strictly_increasing(values: Seq<Binary64>) -> bool {
    increasing_prefix(values, values.len() - 1)
}

/// The `trace` of every tiepoint, in order.
pub open spec fn traces_of(points: Seq<Tiepoint>) -> Seq<Binary64> {
    points.map_values(|p: Tiepoint| p.trace)
}

/// The `x` of every tiepoint, in order.
pub open spec fn xs_of(points: Seq<Tiepoint>) -> Seq<Binary64> {
    points.map_values(|p: Tiepoint| p.x)
}

/// Tiepoint window `i` is good: both fields increase from point `i` to
/// point `i + 1`.
pub open spec fn tiepoint_window_ok(points: Seq<Tiepoint>, i: int) -> bool {
    points[i].trace.less_than(points[i + 1].trace) && points[i].x.less_than(points[i + 1].x)
}

pub open spec fn tiepoint_prefix_ok(points: Seq<Tiepoint>, n: int) -> bool {
    forall|i: int| 0 <= i < n ==> #[trigger] tiepoint_window_ok(points, i)
}

/// The error [`Mapping::from_parts`] reports for a tiepoint list whose
/// windows before `i` are good and whose window `i` is not.
pub open spec fn tiepoint_window_error(points: Seq<Tiepoint>, i: int) -> Invalidity {
    if !points[i].trace.less_than(points[i + 1].trace) {
        Invalidity::TraceNotIncreasing {
            index: i as usize,
            previous: points[i].trace,
            next: points[i + 1].trace,
        }
    } else {
        Invalidity::XNotIncreasing { index: i as usize, previous: points[i].x, next: points[i + 1].x }
    }
}

/// The value of `mapping_type` viewed as characters.
pub open spec fn str_view(s: Option<&str>) -> Option<Seq<char>> {
    match s {
        Some(s) => Some(s@),
        None => None,
    }
}

/// The contents of an optional slice.
pub open spec fn slice_view<T>(s: Option<&[T]>) -> Option<Seq<T>> {
    match s {
        Some(s) => Some(s@),
        None => None,
    }
}

/// Whether raw mapping fields describe a usable mapping: a known type, the
/// fields that type needs, and the mapping constraints.
pub open spec fn parts_usable(
    mapping_type: Option<Seq<char>>,
    t0: Option<Binary64>,
    dt: Option<Binary64>,
    points: Option<Seq<Tiepoint>>,
    values: Option<Seq<Binary64>>,
) -> bool {
    match mapping_type {
        None => false,
        Some(ty) => if ty == "regular"@ {
            &&& t0 is Some
            &&& dt is Some
            &&& dt.unwrap().is_finite_spec()
            &&& positive_zero().less_than(dt.unwrap())
            &&& t0.unwrap().is_finite_spec()
        } else if ty == "tiepoints"@ {
            &&& points is Some
            &&& points.unwrap().len() >= 2
            &&& tiepoint_prefix_ok(points.unwrap(), points.unwrap().len() - 1)
        } else if ty == "explicit"@ {
            &&& values is Some
            &&& values.unwrap().len() >= 2
            &&& strictly_increasing(values.unwrap())
        } else {
            false
        },
    }
}

/// What [`Mapping::from_parts`] returns for the given raw fields.
pub open spec fn parts_give(
    mapping_type: Option<Seq<char>>,
    t0: Option<Binary64>,
    dt: Option<Binary64>,
    points: Option<Seq<Tiepoint>>,
    values: Option<Seq<Binary64>>,
    r: Result<Mapping, MappingError>,
) -> bool {
    &&& mapping_type is None ==> r == Err::<Mapping, MappingError>(MappingError::MissingType)
    &&& mapping_type matches Some(ty) ==> {
            if ty == "regular"@ {
                if t0 is None {
                    r == Err::<Mapping, MappingError>(
                        MappingError::MissingField { mapping_type: "regular", field: "t0" },
                    )
                } else if dt is None {
                    r == Err::<Mapping, MappingError>(
                        MappingError::MissingField { mapping_type: "regular", field: "dt" },
                    )
                } else if !dt.unwrap().is_finite_spec() || !positive_zero().less_than(dt.unwrap()) {
                    r == Err::<Mapping, MappingError>(
                        MappingError::NotInvertible(
                            Invalidity::DtNotPositive { dt: dt.unwrap() },
                        ),
                    )
                } else if !t0.unwrap().is_finite_spec() {
                    r == Err::<Mapping, MappingError>(
                        MappingError::NotInvertible(
                            Invalidity::T0NotFinite { t0: t0.unwrap() },
                        ),
                    )
                } else {
                    r == Ok::<Mapping, MappingError>(
                        Mapping::Regular { t0: t0.unwrap(), dt: dt.unwrap() },
                    )
                }
            } else if ty == "tiepoints"@ {
                match points {
                    None => r == Err::<Mapping, MappingError>(
                        MappingError::MissingField {
                            mapping_type: "tiepoints",
                            field: "points",
                        },
                    ),
                    Some(ps) => if ps.len() < 2 {
                        r == Err::<Mapping, MappingError>(
                            MappingError::NotInvertible(
                                Invalidity::TooFewTiepoints { count: ps.len() as usize },
                            ),
                        )
                    } else if tiepoint_prefix_ok(ps, ps.len() - 1) {
                        r matches Ok(Mapping::Tiepoints { points: out }) && out@ == ps
                    } else {
                        exists|i: int|
                            0 <= i < ps.len() - 1 && tiepoint_prefix_ok(ps, i)
                                && !#[trigger] tiepoint_window_ok(ps, i) && r == Err::<
                                Mapping,
                                MappingError,
                            >(MappingError::NotInvertible(tiepoint_window_error(ps, i)))
                    },
                }
            } else if ty == "explicit"@ {
                match values {
                    None => r == Err::<Mapping, MappingError>(
                        MappingError::MissingField { mapping_type: "explicit", field: "values" },
                    ),
                    Some(vs) => if vs.len() < 2 {
                        r == Err::<Mapping, MappingError>(
                            MappingError::NotInvertible(
                                Invalidity::TooFewValues { count: vs.len() as usize },
                            ),
                        )
                    } else if strictly_increasing(vs) {
                        r matches Ok(Mapping::Explicit { values: out }) && out@ == vs
                    } else {
                        exists|i: int|
                            0 <= i < vs.len() - 1 && increasing_prefix(vs, i)
                                && !#[trigger] increases_at(vs, i) && r == Err::<
                                Mapping,
                                MappingError,
                            >(
                                MappingError::NotInvertible(
                                    Invalidity::ValuesNotIncreasing {
                                        index: i as usize,
                                        previous: vs[i],
                                        next: vs[i + 1],
                                    },
                                ),
                            )
                    },
                }
            } else {
                r matches Err(MappingError::UnknownType(name)) && name@ == ty
            }
        }
}

impl Mapping {
    /// The mapping constraints: a finite `t0` and a finite, positive
    /// `dt`; at least two tiepoints, strictly increasing in both fields; at
    /// least two explicit values, strictly increasing.
    pub open spec fn well_formed(&self) -> bool {
        match self {
            Mapping::Regular { t0, dt } => {
                &&& t0.is_finite_spec()
                &&& dt.is_finite_spec()
                &&& positive_zero().less_than(*dt)
            },
            Mapping::Tiepoints { points } => {
                &&& points@.len() >= 2
                &&& strictly_increasing(traces_of(points@))
                &&& strictly_increasing(xs_of(points@))
            },
            Mapping::Explicit { values } => {
                &&& values@.len() >= 2
                &&& strictly_increasing(values@)
            },
        }
    }

    /// Validate raw fields into a usable mapping.
    ///
    /// The `type` decides which fields are read; the others are ignored.
    /// Errors are reported in the order the fields are checked: the type,
    /// then the required fields in order, then the constraints, the first
    /// failing neighbour pair being the one reported.
    #[verifier::loop_isolation(false)]
    pub fn from_parts(
        mapping_type: Option<&str>,
        t0: Option<Binary64>,
        dt: Option<Binary64>,
        points: Option<&[Tiepoint]>,
        values: Option<&[Binary64]>,
    ) -> (r: Result<Mapping, MappingError>)
        ensures
            r matches Ok(m) ==> m.well_formed(),
            r is Ok <==> parts_usable(str_view(mapping_type), t0, dt, slice_view(points), slice_view(values)),
            parts_give(str_view(mapping_type), t0, dt, slice_view(points), slice_view(values), r),
    {
        let ty = match mapping_type {
            None => return Err(MappingError::MissingType),
            Some(ty) => ty,
        };
        if str_eq(ty, "regular") {
            let t0 = match t0 {
                None => {
                    return Err(MappingError::MissingField { mapping_type: "regular", field: "t0" })
                },
                Some(t0) => t0,
            };
            let dt = match dt {
                None => {
                    return Err(MappingError::MissingField { mapping_type: "regular", field: "dt" })
                },
                Some(dt) => dt,
            };
            // `is_finite` first, so a NaN `dt` is rejected here rather than
            // slipping past a comparison that is false for NaN.
            if !dt.is_finite() || !Binary64::zero().lt(&dt) {
                return Err(MappingError::NotInvertible(Invalidity::DtNotPositive { dt }));
            }
            if !t0.is_finite() {
                return Err(MappingError::NotInvertible(Invalidity::T0NotFinite { t0 }));
            }
            Ok(Mapping::Regular { t0, dt })
        } else if str_eq(ty, "tiepoints") {
            let points = match points {
                None => {
                    return Err(
                        MappingError::MissingField { mapping_type: "tiepoints", field: "points" },
                    )
                },
                Some(points) => points,
            };
            if points.len() < 2 {
                return Err(
                    MappingError::NotInvertible(
                        Invalidity::TooFewTiepoints { count: points.len() },
                    ),
                );
            }
            let n = points.len() - 1;
            let mut i: usize = 0;
            while i < n
                invariant
                    n == points@.len() - 1,
                    i <= n,
                    tiepoint_prefix_ok(points@, i as int),
                decreases n - i,
            {
                if !points[i].trace.lt(&points[i + 1].trace) {
                    assert(!tiepoint_window_ok(points@, i as int));
                    return Err(
                        MappingError::NotInvertible(
                            Invalidity::TraceNotIncreasing {
                                index: i,
                                previous: points[i].trace,
                                next: points[i + 1].trace,
                            },
                        ),
                    );
                }
                if !points[i].x.lt(&points[i + 1].x) {
                    assert(!tiepoint_window_ok(points@, i as int));
                    return Err(
                        MappingError::NotInvertible(
                            Invalidity::XNotIncreasing {
                                index: i,
                                previous: points[i].x,
                                next: points[i + 1].x,
                            },
                        ),
                    );
                }
                assert(tiepoint_window_ok(points@, i as int));
                i = i + 1;
            }
            proof {
                lemma_tiepoints_increasing(points@);
            }
            Ok(Mapping::Tiepoints { points: vstd::slice::slice_to_vec(points) })
        } else if str_eq(ty, "explicit") {
            let values = match values {
                None => {
                    return Err(
                        MappingError::MissingField { mapping_type: "explicit", field: "values" },
                    )
                },
                Some(values) => values,
            };
            if values.len() < 2 {
                return Err(
                    MappingError::NotInvertible(Invalidity::TooFewValues { count: values.len() }),
                );
            }
            let n = values.len() - 1;
            let mut i: usize = 0;
            while i < n
                invariant
                    n == values@.len() - 1,
                    i <= n,
                    increasing_prefix(values@, i as int),
                decreases n - i,
            {
                if !values[i].lt(&values[i + 1]) {
                    assert(!increases_at(values@, i as int));
                    return Err(
                        MappingError::NotInvertible(
                            Invalidity::ValuesNotIncreasing {
                                index: i,
                                previous: values[i],
                                next: values[i + 1],
                            },
                        ),
                    );
                }
                assert(increases_at(values@, i as int));
                i = i + 1;
            }
            Ok(Mapping::Explicit { values: vstd::slice::slice_to_vec(values) })
        } else {
            Err(MappingError::UnknownType(ty.to_string()))
        }
    }
}

impl Mapping {
    /// The first and last index of a tiepoint or explicit mapping.
    pub open spec fn index_bounds(&self) -> Option<(Binary64, Binary64)> {
        match self {
            Mapping::Regular { .. } => None,
            Mapping::Tiepoints { points } => Some(
                (points@[0].trace, points@[points@.len() - 1].trace),
            ),
            Mapping::Explicit { values } => Some(
                (positive_zero(), Binary64 { bits: encoding_of_u64((values@.len() - 1) as u64) }),
            ),
        }
    }

    /// The first and last anchor value of a tiepoint or explicit mapping.
    pub open spec fn value_bounds(&self) -> Option<(Binary64, Binary64)> {
        match self {
            Mapping::Regular { .. } => None,
            Mapping::Tiepoints { points } => Some((points@[0].x, points@[points@.len() - 1].x)),
            Mapping::Explicit { values } => Some((values@[0], values@[values@.len() - 1])),
        }
    }

    /// Lists that have a first and a last entry.
    pub open spec fn has_endpoints(&self) -> bool {
        match self {
            Mapping::Regular { .. } => true,
            Mapping::Tiepoints { points } => points@.len() > 0,
            Mapping::Explicit { values } => values@.len() > 0,
        }
    }

    /// The index range over which the mapping interpolates rather than
    /// extrapolates. `None` for [`Mapping::Regular`], which is defined
    /// everywhere; for [`Mapping::Explicit`] it runs from `0.0` to the last
    /// index, as `f64`.
    pub fn index_range(&self) -> (r: Option<(Binary64, Binary64)>)
        requires
            self.has_endpoints(),
        ensures
            r == self.index_bounds(),
    {
        match self {
            Mapping::Regular { .. } => None,
            Mapping::Tiepoints { points } => Some((points[0].trace, points[points.len() - 1].trace)),
            Mapping::Explicit { values } => Some(
                (Binary64::zero(), Binary64::from_u64((values.len() - 1) as u64)),
            ),
        }
    }

    /// The anchor-value range over which inversion interpolates rather than
    /// extrapolating.
    pub fn value_range(&self) -> (r: Option<(Binary64, Binary64)>)
        requires
            self.has_endpoints(),
        ensures
            match self {
                Mapping::Regular { .. } => r is None,
                Mapping::Tiepoints { points } => r == Some(
                    (points@[0].x, points@[points@.len() - 1].x),
                ),
                Mapping::Explicit { values } => r == Some(
                    (values@[0], values@[values@.len() - 1]),
                ),
            },
            r == self.value_bounds(),
    {
        match self {
            Mapping::Regular { .. } => None,
            Mapping::Tiepoints { points } => Some((points[0].x, points[points.len() - 1].x)),
            Mapping::Explicit { values } => Some((values[0], values[values.len() - 1])),
        }
    }
}

/// How many entries of `xs` are at or below `at`; a NaN `at` has none.
pub open spec fn count_at_most(xs: Seq<Binary64>, at: Binary64) -> int
    decreases xs.len(),
{
    if xs.len() == 0 {
        0
    } else {
        count_at_most(xs.drop_last(), at) + if xs.last().at_most(at) {
            1int
        } else {
            0int
        }
    }
}

/// The neighbouring pair of entries, out of `len`, that interpolation uses
/// when `below` entries are at or below the point: the pair around the
/// point, or the first or last pair when the point lies outside.
pub open spec fn bracket(len: int, below: int) -> (int, int) {
    if below == 0 {
        (0, 1)
    } else if below >= len {
        (len - 2, len - 1)
    } else {
        (below - 1, below)
    }
}

proof fn lemma_count_at_most_split(xs: Seq<Binary64>, at: Binary64, p: int)
    requires
        0 <= p <= xs.len(),
        forall|k: int| 0 <= k < p ==> #[trigger] xs[k].at_most(at),
        forall|k: int| p <= k < xs.len() ==> !#[trigger] xs[k].at_most(at),
    ensures
        count_at_most(xs, at) == p,
    decreases xs.len(),
{
    if xs.len() > 0 {
        let rest = xs.drop_last();
        if p == xs.len() {
            assert(xs[xs.len() - 1].at_most(at));
            lemma_count_at_most_split(rest, at, p - 1);
        } else {
            assert(!xs[xs.len() - 1].at_most(at));
            lemma_count_at_most_split(rest, at, p);
        }
    }
}

/// The neighbouring pair of entries of `xs` that piecewise-linear
/// interpolation at `at` goes through, by binary search.
///
/// Inside the range this is the pair whose interval holds `at` (the last
/// pair at the last entry); below it, or at NaN, the first pair; above it,
/// the last pair, so that the terminal segments are extrapolated.
pub fn segment(xs: &[Binary64], at: Binary64) -> (r: (usize, usize))
    requires
        xs@.len() >= 2,
        strictly_increasing(xs@),
    ensures
        (r.0 as int, r.1 as int) == bracket(xs@.len() as int, count_at_most(xs@, at)),
        r.1 == r.0 + 1,
        r.1 < xs@.len(),
        xs@[0].at_most(at) && at.at_most(xs@[xs@.len() - 1]) ==> xs@[r.0 as int].at_most(at)
            && at.at_most(xs@[r.1 as int]),
        !xs@[0].at_most(at) ==> r == (0usize, 1usize),
        xs@[xs@.len() - 1].at_most(at) ==> r.1 == xs@.len() - 1,
        xs@[0].at_most(at) && at.less_than(xs@[xs@.len() - 1]) ==> xs@[r.0 as int].at_most(at)
            && at.less_than(xs@[r.1 as int]),
{
    let n = xs.len();
    let mut lo: usize = 0;
    let mut hi: usize = n;
    while lo < hi
        invariant
            n == xs@.len(),
            n >= 2,
            strictly_increasing(xs@),
            lo <= hi <= n,
            forall|k: int| 0 <= k < lo ==> #[trigger] xs@[k].at_most(at),
            forall|k: int| hi <= k < n ==> !#[trigger] xs@[k].at_most(at),
        decreases hi - lo,
    {
        let mid = lo + (hi - lo) / 2;
        if xs[mid].le(&at) {
            proof {
                assert forall|k: int| 0 <= k < mid + 1 implies #[trigger] xs@[k].at_most(at) by {
                    if k < mid {
                        lemma_increasing_pairwise(xs@, k, mid as int);
                    }
                }
            }
            lo = mid + 1;
        } else {
            proof {
                assert forall|k: int| mid <= k < n implies !#[trigger] xs@[k].at_most(at) by {
                    if k > mid {
                        lemma_increasing_pairwise(xs@, mid as int, k);
                    }
                }
            }
            hi = mid;
        }
    }
    proof {
        lemma_count_at_most_split(xs@, at, lo as int);
        if xs@[n - 1].at_most(at) {
            assert(lo == n);
        }
        if xs@[0].at_most(at) {
            assert(lo > 0);
        }
        if 0 < lo < n {
            assert(!xs@[lo as int].at_most(at));
            assert(xs@[lo - 1].at_most(at));
            lemma_increasing_pairwise(xs@, lo - 1, lo as int);
        }
        if xs@[0].at_most(at) && at.at_most(xs@[n - 1]) {
            assert(lo > 0);
            if lo < n {
                assert(!xs@[lo as int].at_most(at));
                assert(at.at_most(xs@[lo as int])) by {
                    if (lo as int) < n - 1 {
                        lemma_increasing_pairwise(xs@, lo as int, n - 1);
                    }
                }
            }
        }
    }
    if lo == 0 {
        (0, 1)
    } else if lo >= n {
        (n - 2, n - 1)
    } else {
        (lo - 1, lo)
    }
}

proof fn lemma_increasing_pairwise(values: Seq<Binary64>, i: int, j: int)
    requires
        strictly_increasing(values),
        0 <= i < j < values.len(),
    ensures
        values[i].less_than(values[j]),
    decreases j - i,
{
    assert(increases_at(values, j - 1));
    if i < j - 1 {
        lemma_increasing_pairwise(values, i, j - 1);
    }
}

/// Invertibility: in a well-formed mapping every earlier entry
/// is strictly below every later one, in both tiepoint fields, so each
/// value is reached from exactly one index.
pub proof fn lemma_well_formed_mapping_is_strictly_monotone(m: Mapping)
    requires
        m.well_formed(),
    ensures
        m matches Mapping::Tiepoints { points } ==> forall|i: int, j: int|
            0 <= i < j < points@.len() ==> (#[trigger] points@[i]).trace.less_than(
                (#[trigger] points@[j]).trace,
            ) && points@[i].x.less_than(points@[j].x),
        m matches Mapping::Explicit { values } ==> forall|i: int, j: int|
            0 <= i < j < values@.len() ==> (#[trigger] values@[i]).less_than(#[trigger] values@[j]),
        m matches Mapping::Regular { t0, dt } ==> t0.is_finite_spec() && dt.is_finite_spec()
            && positive_zero().less_than(dt),
{
    match m {
        Mapping::Tiepoints { points } => {
            assert forall|i: int, j: int| 0 <= i < j < points@.len() implies (
            #[trigger] points@[i]).trace.less_than((#[trigger] points@[j]).trace)
                && points@[i].x.less_than(points@[j].x) by {
                lemma_increasing_pairwise(traces_of(points@), i, j);
                lemma_increasing_pairwise(xs_of(points@), i, j);
            }
        },
        Mapping::Explicit { values } => {
            assert forall|i: int, j: int| 0 <= i < j < values@.len() implies (
            #[trigger] values@[i]).less_than(#[trigger] values@[j]) by {
                lemma_increasing_pairwise(values@, i, j);
            }
        },
        Mapping::Regular { .. } => {},
    }
}

proof fn lemma_tiepoints_increasing(points: Seq<Tiepoint>)
    requires
        tiepoint_prefix_ok(points, points.len() - 1),
    ensures
        strictly_increasing(traces_of(points)),
        strictly_increasing(xs_of(points)),
{
    assert forall|i: int| 0 <= i < points.len() - 1 implies #[trigger] increases_at(
        traces_of(points),
        i,
    ) by {
        assert(tiepoint_window_ok(points, i));
    }
    assert forall|i: int| 0 <= i < points.len() - 1 implies #[trigger] increases_at(
        xs_of(points),
        i,
    ) by {
        assert(tiepoint_window_ok(points, i));
    }
}

/// A mapping is refused for no reason but the ones the format gives. For a
/// stated type with its fields present: a `regular` mapping is accepted
/// exactly when `t0` and `dt` are finite and `dt` is above zero; a
/// `tiepoints` mapping exactly when it has at least two points, each
/// strictly above the one before in both `trace` and `x`, wherever the
/// first point lies; an `explicit` mapping exactly when it has at least two
/// values, each strictly above the one before. What is accepted is the
/// given parameters, points or values, unchanged.
pub proof fn lemma_accepted_exactly_when_monotone(
    mapping_type: Option<Seq<char>>,
    t0: Option<Binary64>,
    dt: Option<Binary64>,
    points: Option<Seq<Tiepoint>>,
    values: Option<Seq<Binary64>>,
    r: Result<Mapping, MappingError>,
)
    requires
        parts_give(mapping_type, t0, dt, points, values, r),
    ensures
        mapping_type == Some("regular"@) ==> (t0 matches Some(a) ==> (dt matches Some(d) ==> {
            &&& r is Ok <==> a.is_finite_spec() && d.is_finite_spec() && positive_zero().less_than(d)
            &&& r is Ok ==> r == Ok::<Mapping, MappingError>(Mapping::Regular { t0: a, dt: d })
        })),
        mapping_type == Some("tiepoints"@) ==> (points matches Some(ps) ==> {
            &&& r is Ok <==> ps.len() >= 2 && forall|i: int|
                0 <= i < ps.len() - 1 ==> (#[trigger] ps[i]).trace.less_than(ps[i + 1].trace)
                    && ps[i].x.less_than(ps[i + 1].x)
            &&& r is Ok ==> (r matches Ok(Mapping::Tiepoints { points: out }) && out@ == ps)
        }),
        mapping_type == Some("explicit"@) ==> (values matches Some(vs) ==> {
            &&& r is Ok <==> vs.len() >= 2 && forall|i: int|
                0 <= i < vs.len() - 1 ==> (#[trigger] vs[i]).less_than(vs[i + 1])
            &&& r is Ok ==> (r matches Ok(Mapping::Explicit { values: out }) && out@ == vs)
        }),
{
    reveal_strlit("regular");
    reveal_strlit("tiepoints");
    reveal_strlit("explicit");
    assert("regular"@[0] != "tiepoints"@[0]);
    assert("regular"@[0] != "explicit"@[0]);
    assert("tiepoints"@[0] != "explicit"@[0]);
    if mapping_type == Some("tiepoints"@) && points is Some {
        let ps = points.unwrap();
        if ps.len() >= 2 {
            if tiepoint_prefix_ok(ps, ps.len() - 1) {
                assert forall|i: int| 0 <= i < ps.len() - 1 implies (#[trigger] ps[i]).trace.less_than(
                    ps[i + 1].trace,
                ) && ps[i].x.less_than(ps[i + 1].x) by {
                    assert(tiepoint_window_ok(ps, i));
                }
            } else {
                let i = choose|i: int|
                    0 <= i < ps.len() - 1 && tiepoint_prefix_ok(ps, i) && !#[trigger] tiepoint_window_ok(
                        ps,
                        i,
                    ) && r == Err::<Mapping, MappingError>(
                        MappingError::NotInvertible(tiepoint_window_error(ps, i)),
                    );
                assert(!(ps[i].trace.less_than(ps[i + 1].trace) && ps[i].x.less_than(ps[i + 1].x)));
            }
        }
    }
    if mapping_type == Some("explicit"@) && values is Some {
        let vs = values.unwrap();
        if vs.len() >= 2 {
            if strictly_increasing(vs) {
                assert forall|i: int| 0 <= i < vs.len() - 1 implies (#[trigger] vs[i]).less_than(
                    vs[i + 1],
                ) by {
                    assert(increases_at(vs, i));
                }
            } else {
                let i = choose|i: int|
                    0 <= i < vs.len() - 1 && increasing_prefix(vs, i) && !#[trigger] increases_at(
                        vs,
                        i,
                    ) && r == Err::<Mapping, MappingError>(
                        MappingError::NotInvertible(
                            Invalidity::ValuesNotIncreasing {
                                index: i as usize,
                                previous: vs[i],
                                next: vs[i + 1],
                            },
                        ),
                    );
                assert(!vs[i].less_than(vs[i + 1]));
            }
        }
    }
}

/// Where a well-formed mapping interpolates rather than extrapolates. A
/// `regular` mapping has no range. A `tiepoints` mapping's index range runs
/// from the least to the greatest `trace` it defines and its value range
/// from the least to the greatest `x`, each end being one of its points. An
/// `explicit` mapping's index range runs from index 0 to its last index, as
/// binary64 values, and its value range from its least to its greatest
/// value, each end being one of its values.
pub proof fn lemma_ranges_are_the_defined_extent(m: Mapping)
    requires
        m.well_formed(),
    ensures
        m is Regular ==> m.index_bounds() is None && m.value_bounds() is None,
        m matches Mapping::Tiepoints { points } ==> {
            &&& m.index_bounds() matches Some((lo, hi)) && (exists|i: int|
                0 <= i < points@.len() && points@[i].trace == lo) && (exists|i: int|
                0 <= i < points@.len() && points@[i].trace == hi) && forall|i: int|
                0 <= i < points@.len() ==> lo.at_most((#[trigger] points@[i]).trace)
                    && points@[i].trace.at_most(hi)
            &&& m.value_bounds() matches Some((lo, hi)) && (exists|i: int|
                0 <= i < points@.len() && points@[i].x == lo) && (exists|i: int|
                0 <= i < points@.len() && points@[i].x == hi) && forall|i: int|
                0 <= i < points@.len() ==> lo.at_most((#[trigger] points@[i]).x)
                    && points@[i].x.at_most(hi)
        },
        m matches Mapping::Explicit { values } ==> {
            &&& m.index_bounds() matches Some((lo, hi)) && lo.bits == encoding_of_u64(0)
                && hi.bits == encoding_of_u64((values@.len() - 1) as u64)
            &&& m.value_bounds() matches Some((lo, hi)) && (exists|i: int|
                0 <= i < values@.len() && values@[i] == lo) && (exists|i: int|
                0 <= i < values@.len() && values@[i] == hi) && forall|i: int|
                0 <= i < values@.len() ==> lo.at_most(#[trigger] values@[i])
                    && values@[i].at_most(hi)
        },
{
    lemma_well_formed_mapping_is_strictly_monotone(m);
    match m {
        Mapping::Tiepoints { points } => {
            let n = points@.len();
            assert(points@[0].trace.less_than(points@[1].trace));
            assert(points@[0].x.less_than(points@[1].x));
            assert(points@[n - 2].trace.less_than(points@[n - 1].trace));
            assert(points@[n - 2].x.less_than(points@[n - 1].x));
            assert forall|i: int| 0 <= i < n implies points@[0].trace.at_most(
                (#[trigger] points@[i]).trace,
            ) && points@[i].trace.at_most(points@[n - 1].trace) && points@[0].x.at_most(
                points@[i].x,
            ) && points@[i].x.at_most(points@[n - 1].x) by {
                if 0 < i {
                    assert(points@[0].trace.less_than(points@[i].trace));
                    assert(points@[0].x.less_than(points@[i].x));
                }
                if i < n - 1 {
                    assert(points@[i].trace.less_than(points@[n - 1].trace));
                    assert(points@[i].x.less_than(points@[n - 1].x));
                }
            }
        },
        Mapping::Explicit { values } => {
            let n = values@.len();
            assert(values@[0].less_than(values@[1]));
            assert(values@[n - 2].less_than(values@[n - 1]));
            assert forall|i: int| 0 <= i < n implies values@[0].at_most(#[trigger] values@[i])
                && values@[i].at_most(values@[n - 1]) by {
                if 0 < i {
                    assert(values@[0].less_than(values@[i]));
                }
                if i < n - 1 {
                    assert(values@[i].less_than(values@[n - 1]));
                }
            }
        },
        Mapping::Regular { .. } => {},
    }
}

} // verus!
