//! GeoJSON geometry objects, in the index space the format defines.
//!
//! Every geometry type of RFC 7946 is representable, plus
//! [`Geometry::Unknown`]: the format requires a reader to round-trip
//! what it does not itself understand, so an unrecognised geometry is kept
//! verbatim rather than dropped.

use vstd::prelude::*;

use crate::binary64::Binary64;
use crate::json::{object_get_str, str_eq, string_entry, JsonObject};

verus! {

/// One coordinate tuple.
///
/// GeoJSON permits a third element, and the format neither uses nor forbids
/// one, so the full tuple is preserved even though only `x`/`y` carry
/// meaning in `index2d`.
#[derive(Debug, Clone, PartialEq)]
pub struct Position(pub Vec<Binary64>);

/// The coordinate tuple after [`Position::with_xy`].
pub open spec fn replaced_xy(values: Seq<Binary64>, x: Binary64, y: Binary64) -> Seq<Binary64> {
    if values.len() < 2 {
        seq![x, y]
    } else {
        values.update(0, x).update(1, y)
    }
}

fn copy_values(values: &Vec<Binary64>) -> (r: Vec<Binary64>)
    ensures
        r@ == values@,
{
    let mut out: Vec<Binary64> = Vec::new();
    let mut i: usize = 0;
    while i < values.len()
        invariant
            i <= values@.len(),
            out@ == values@.subrange(0, i as int),
        decreases values@.len() - i,
    {
        out.push(values[i]);
        i = i + 1;
    }
    out
}

impl Position {
    /// Trace index in the default `index2d` space.
    pub fn x(&self) -> (r: Option<Binary64>)
        ensures
            r == (if self.0@.len() > 0 {
                Some(self.0@[0])
            } else {
                None
            }),
    {
        if self.0.len() > 0 {
            Some(self.0[0])
        } else {
            None
        }
    }

    /// Sample index in the default `index2d` space.
    pub fn y(&self) -> (r: Option<Binary64>)
        ensures
            r == (if self.0@.len() > 1 {
                Some(self.0@[1])
            } else {
                None
            }),
    {
        if self.0.len() > 1 {
            Some(self.0[1])
        } else {
            None
        }
    }

    /// Replace `x`/`y` while preserving any further elements. A tuple with
    /// fewer than two elements becomes `[x, y]`.
    pub fn with_xy(&self, x: Binary64, y: Binary64) -> (r: Position)
        ensures
            r.0@ == replaced_xy(self.0@, x, y),
            r.0@.len() == if self.0@.len() < 2 {
                2
            } else {
                self.0@.len()
            },
            r.0@[0] == x,
            r.0@[1] == y,
            forall|i: int| 2 <= i < self.0@.len() ==> r.0@[i] == self.0@[i],
    {
        let mut out = copy_values(&self.0);
        if out.len() < 2 {
            out = Vec::new();
            out.push(x);
            out.push(y);
            assert(out@ == seq![x, y]);
        } else {
            out.set(0, x);
            out.set(1, y);
        }
        Position(out)
    }
}

/// A GeoJSON geometry.
#[derive(Debug, PartialEq)]
pub enum Geometry {
    Point(Position),
    MultiPoint(Vec<Position>),
    LineString(Vec<Position>),
    MultiLineString(Vec<Vec<Position>>),
    Polygon(Vec<Vec<Position>>),
    MultiPolygon(Vec<Vec<Vec<Position>>>),
    GeometryCollection(Vec<Geometry>),
    /// A geometry whose `type` this library does not model, kept verbatim
    /// so that it survives a read/write cycle.
    Unknown(JsonObject),
}

/// The geometry types this library models, named by their GeoJSON `type`.
#[derive(Debug, Clone, Copy, PartialEq, Eq)]
pub enum GeometryType {
    Point,
    MultiPoint,
    LineString,
    MultiLineString,
    Polygon,
    MultiPolygon,
    GeometryCollection,
}

/// The modelled type a GeoJSON `type` string names, if any.
pub open spec fn geometry_type_named(name: Seq<char>) -> Option<GeometryType> {
    if name == "Point"@ {
        Some(GeometryType::Point)
    } else if name == "MultiPoint"@ {
        Some(GeometryType::MultiPoint)
    } else if name == "LineString"@ {
        Some(GeometryType::LineString)
    } else if name == "MultiLineString"@ {
        Some(GeometryType::MultiLineString)
    } else if name == "Polygon"@ {
        Some(GeometryType::Polygon)
    } else if name == "MultiPolygon"@ {
        Some(GeometryType::MultiPolygon)
    } else if name == "GeometryCollection"@ {
        Some(GeometryType::GeometryCollection)
    } else {
        None
    }
}

impl GeometryType {
    /// The type a geometry object's `type` string selects when reading it.
    /// `None` means the object is kept as [`Geometry::Unknown`].
    pub fn from_name(name: &str) -> (r: Option<GeometryType>)
        ensures
            r == geometry_type_named(name@),
    {
        if str_eq(name, "Point") {
            Some(GeometryType::Point)
        } else if str_eq(name, "MultiPoint") {
            Some(GeometryType::MultiPoint)
        } else if str_eq(name, "LineString") {
            Some(GeometryType::LineString)
        } else if str_eq(name, "MultiLineString") {
            Some(GeometryType::MultiLineString)
        } else if str_eq(name, "Polygon") {
            Some(GeometryType::Polygon)
        } else if str_eq(name, "MultiPolygon") {
            Some(GeometryType::MultiPolygon)
        } else if str_eq(name, "GeometryCollection") {
            Some(GeometryType::GeometryCollection)
        } else {
            None
        }
    }

    /// The member holding the geometry's body: `geometries` for a
    /// collection, `coordinates` for everything else.
    pub fn body_key(&self) -> (r: &'static str)
        ensures
            r@ == (if *self == GeometryType::GeometryCollection {
                "geometries"@
            } else {
                "coordinates"@
            }),
    {
        match self {
            GeometryType::GeometryCollection => "geometries",
            _ => "coordinates",
        }
    }
}

/// Every position of a list of rings, ring by ring.
pub open spec fn ring_positions(rings: Seq<Vec<Position>>) -> Seq<Position> {
    rings.map_values(|ring: Vec<Position>| ring@).flatten()
}

/// Every position of a list of polygons, polygon by polygon.
pub open spec fn polygon_positions(polygons: Seq<Vec<Vec<Position>>>) -> Seq<Position> {
    polygons.map_values(|polygon: Vec<Vec<Position>>| ring_positions(polygon@)).flatten()
}

impl Geometry {
    /// The GeoJSON `type` string of a geometry: the variant's name, or for
    /// an unmodelled geometry the string its `type` member holds
    /// (`<untyped>` if it holds none).
    pub open spec fn type_string_spec(&self) -> Seq<char> {
        match self {
            Geometry::Point(_) => "Point"@,
            Geometry::MultiPoint(_) => "MultiPoint"@,
            Geometry::LineString(_) => "LineString"@,
            Geometry::MultiLineString(_) => "MultiLineString"@,
            Geometry::Polygon(_) => "Polygon"@,
            Geometry::MultiPolygon(_) => "MultiPolygon"@,
            Geometry::GeometryCollection(_) => "GeometryCollection"@,
            Geometry::Unknown(map) => match string_entry(*map, "type"@) {
                Some(name) => name,
                None => "<untyped>"@,
            },
        }
    }

    /// Every position of the geometry, in document order.
    pub open spec fn all_positions(&self) -> Seq<Position>
        decreases self,
    {
        match self {
            Geometry::Point(p) => seq![*p],
            Geometry::MultiPoint(ps) => ps@,
            Geometry::LineString(ps) => ps@,
            Geometry::MultiLineString(rings) => ring_positions(rings@),
            Geometry::Polygon(rings) => ring_positions(rings@),
            Geometry::MultiPolygon(polygons) => polygon_positions(polygons@),
            Geometry::GeometryCollection(gs) => collection_positions(gs@),
            Geometry::Unknown(_) => Seq::empty(),
        }
    }

    /// The GeoJSON `type` string.
    pub fn type_string(&self) -> (r: &str)
        ensures
            r@ == self.type_string_spec(),
    {
        match self {
            Geometry::Point(_) => "Point",
            Geometry::MultiPoint(_) => "MultiPoint",
            Geometry::LineString(_) => "LineString",
            Geometry::MultiLineString(_) => "MultiLineString",
            Geometry::Polygon(_) => "Polygon",
            Geometry::MultiPolygon(_) => "MultiPolygon",
            Geometry::GeometryCollection(_) => "GeometryCollection",
            Geometry::Unknown(map) => match object_get_str(map, "type") {
                Some(name) => name,
                None => "<untyped>",
            },
        }
    }
}

/// Every position of a list of geometries, geometry by geometry.
pub open spec fn collection_positions(gs: Seq<Geometry>) -> Seq<Position>
    decreases gs,
{
    if gs.len() == 0 {
        Seq::empty()
    } else {
        collection_positions(gs.subrange(0, gs.len() - 1)) + gs[gs.len() - 1].all_positions()
    }
}

/// The values a list of references points at.
pub open spec fn referenced<T>(refs: Seq<&T>) -> Seq<T> {
    refs.map_values(|r: &T| *r)
}

/// `f` maps every position of `ps`, in order, to the position at the same
/// place in `qs`.
pub open spec fn positions_mapped<F: Fn(&Position) -> Option<Position>>(
    f: F,
    ps: Seq<Position>,
    qs: Seq<Position>,
) -> bool {
    &&& ps.len() == qs.len()
    &&& forall|i: int| 0 <= i < ps.len() ==> #[trigger] call_ensures(f, (&ps[i],), Some(qs[i]))
}

/// [`positions_mapped`], ring by ring.
pub open spec fn rings_mapped<F: Fn(&Position) -> Option<Position>>(
    f: F,
    rs: Seq<Vec<Position>>,
    ts: Seq<Vec<Position>>,
) -> bool {
    &&& rs.len() == ts.len()
    &&& forall|i: int| 0 <= i < rs.len() ==> #[trigger] positions_mapped(f, rs[i]@, ts[i]@)
}

/// [`positions_mapped`], polygon by polygon.
pub open spec fn polygons_mapped<F: Fn(&Position) -> Option<Position>>(
    f: F,
    ps: Seq<Vec<Vec<Position>>>,
    ts: Seq<Vec<Vec<Position>>>,
) -> bool {
    &&& ps.len() == ts.len()
    &&& forall|i: int| 0 <= i < ps.len() ==> #[trigger] rings_mapped(f, ps[i]@, ts[i]@)
}

/// `h` is `g` with every position replaced by what `f` returned for it:
/// the same geometry type and nesting, the same lengths, and an unmodelled
/// geometry carried over unchanged.
pub open spec fn geometry_mapped<F: Fn(&Position) -> Option<Position>>(
    f: F,
    g: Geometry,
    h: Geometry,
) -> bool
    decreases g,
{
    match g {
        Geometry::Point(p) => h matches Geometry::Point(q) && call_ensures(f, (&p,), Some(q)),
        Geometry::MultiPoint(ps) => h matches Geometry::MultiPoint(qs) && positions_mapped(
            f,
            ps@,
            qs@,
        ),
        Geometry::LineString(ps) => h matches Geometry::LineString(qs) && positions_mapped(
            f,
            ps@,
            qs@,
        ),
        Geometry::MultiLineString(rs) => h matches Geometry::MultiLineString(ts) && rings_mapped(
            f,
            rs@,
            ts@,
        ),
        Geometry::Polygon(rs) => h matches Geometry::Polygon(ts) && rings_mapped(f, rs@, ts@),
        Geometry::MultiPolygon(ps) => h matches Geometry::MultiPolygon(ts) && polygons_mapped(
            f,
            ps@,
            ts@,
        ),
        Geometry::GeometryCollection(gs) => h matches Geometry::GeometryCollection(hs)
            && collection_mapped(f, gs@, hs@),
        Geometry::Unknown(m) => h == Geometry::Unknown(m),
    }
}

/// [`geometry_mapped`], member by member.
pub open spec fn collection_mapped<F: Fn(&Position) -> Option<Position>>(
    f: F,
    gs: Seq<Geometry>,
    hs: Seq<Geometry>,
) -> bool
    decreases gs,
{
    if gs.len() == 0 {
        hs.len() == 0
    } else {
        &&& hs.len() == gs.len()
        &&& collection_mapped(f, gs.subrange(0, gs.len() - 1), hs.subrange(0, hs.len() - 1))
        &&& geometry_mapped(f, gs[gs.len() - 1], hs[hs.len() - 1])
    }
}

/// Some position of `g` is one `f` returned `None` for.
pub open spec fn some_position_refused<F: Fn(&Position) -> Option<Position>>(
    f: F,
    g: Geometry,
) -> bool {
    exists|i: int|
        0 <= i < g.all_positions().len() && #[trigger] call_ensures(
            f,
            (&g.all_positions()[i],),
            None,
        )
}

proof fn lemma_flatten_index<A>(s: Seq<Seq<A>>, i: int, j: int)
    requires
        0 <= i < s.len(),
        0 <= j < s[i].len(),
    ensures
        exists|k: int| 0 <= k < s.flatten().len() && s.flatten()[k] == s[i][j],
    decreases s.len(),
{
    if i == 0 {
        assert(s.flatten() == s[0] + s.drop_first().flatten());
        assert(s.flatten()[j] == s[i][j]);
    } else {
        lemma_flatten_index(s.drop_first(), i - 1, j);
        let k = choose|k: int|
            0 <= k < s.drop_first().flatten().len() && s.drop_first().flatten()[k] == s.drop_first()[i
                - 1][j];
        assert(s.flatten() == s[0] + s.drop_first().flatten());
        assert(s.flatten()[s[0].len() + k] == s[i][j]);
    }
}

proof fn lemma_collection_index(gs: Seq<Geometry>, i: int, j: int)
    requires
        0 <= i < gs.len(),
        0 <= j < gs[i].all_positions().len(),
    ensures
        exists|k: int|
            0 <= k < collection_positions(gs).len() && collection_positions(gs)[k]
                == gs[i].all_positions()[j],
    decreases gs.len(),
{
    let front = gs.subrange(0, gs.len() - 1);
    if i == gs.len() - 1 {
        assert(collection_positions(gs)[collection_positions(front).len() + j]
            == gs[i].all_positions()[j]);
    } else {
        lemma_collection_index(front, i, j);
        let k = choose|k: int|
            0 <= k < collection_positions(front).len() && collection_positions(front)[k]
                == front[i].all_positions()[j];
        assert(collection_positions(gs)[k] == gs[i].all_positions()[j]);
    }
}

fn map_positions<F: Fn(&Position) -> Option<Position>>(ps: &Vec<Position>, f: &F) -> (r: Option<
    Vec<Position>,
>)
    requires
        forall|p: &Position| call_requires(*f, (p,)),
    ensures
        r matches Some(qs) ==> positions_mapped(*f, ps@, qs@),
        r is None ==> exists|i: int|
            0 <= i < ps@.len() && #[trigger] call_ensures(*f, (&ps@[i],), None),
{
    let mut out: Vec<Position> = Vec::new();
    let mut i: usize = 0;
    while i < ps.len()
        invariant
            forall|p: &Position| call_requires(*f, (p,)),
            i <= ps@.len(),
            positions_mapped(*f, ps@.subrange(0, i as int), out@),
        decreases ps@.len() - i,
    {
        match f(&ps[i]) {
            None => {
                return None;
            },
            Some(q) => {
                out.push(q);
                assert(positions_mapped(*f, ps@.subrange(0, i + 1), out@)) by {
                    assert forall|k: int| 0 <= k < i + 1 implies #[trigger] call_ensures(
                        *f,
                        (&ps@.subrange(0, i + 1)[k],),
                        Some(out@[k]),
                    ) by {
                        if k < i {
                            assert(ps@.subrange(0, i + 1)[k] == ps@.subrange(0, i as int)[k]);
                        }
                    }
                }
            },
        }
        i = i + 1;
    }
    assert(ps@.subrange(0, ps@.len() as int) == ps@);
    Some(out)
}

fn map_rings<F: Fn(&Position) -> Option<Position>>(rs: &Vec<Vec<Position>>, f: &F) -> (r: Option<
    Vec<Vec<Position>>,
>)
    requires
        forall|p: &Position| call_requires(*f, (p,)),
    ensures
        r matches Some(ts) ==> rings_mapped(*f, rs@, ts@),
        r is None ==> exists|i: int, j: int|
            0 <= i < rs@.len() && 0 <= j < rs@[i]@.len() && #[trigger] call_ensures(
                *f,
                (&rs@[i]@[j],),
                None,
            ),
{
    let mut out: Vec<Vec<Position>> = Vec::new();
    let mut i: usize = 0;
    while i < rs.len()
        invariant
            forall|p: &Position| call_requires(*f, (p,)),
            i <= rs@.len(),
            rings_mapped(*f, rs@.subrange(0, i as int), out@),
        decreases rs@.len() - i,
    {
        match map_positions(&rs[i], f) {
            None => {
                return None;
            },
            Some(t) => {
                out.push(t);
                assert(rings_mapped(*f, rs@.subrange(0, i + 1), out@)) by {
                    assert forall|k: int| 0 <= k < i + 1 implies #[trigger] positions_mapped(
                        *f,
                        rs@.subrange(0, i + 1)[k]@,
                        out@[k]@,
                    ) by {
                        if k < i {
                            assert(rs@.subrange(0, i + 1)[k] == rs@.subrange(0, i as int)[k]);
                        }
                    }
                }
            },
        }
        i = i + 1;
    }
    assert(rs@.subrange(0, rs@.len() as int) == rs@);
    Some(out)
}

fn map_polygons<F: Fn(&Position) -> Option<Position>>(
    ps: &Vec<Vec<Vec<Position>>>,
    f: &F,
) -> (r: Option<Vec<Vec<Vec<Position>>>>)
    requires
        forall|p: &Position| call_requires(*f, (p,)),
    ensures
        r matches Some(ts) ==> polygons_mapped(*f, ps@, ts@),
        r is None ==> exists|i: int, j: int, k: int|
            0 <= i < ps@.len() && 0 <= j < ps@[i]@.len() && 0 <= k < ps@[i]@[j]@.len()
                && #[trigger] call_ensures(*f, (&ps@[i]@[j]@[k],), None),
{
    let mut out: Vec<Vec<Vec<Position>>> = Vec::new();
    let mut i: usize = 0;
    while i < ps.len()
        invariant
            forall|p: &Position| call_requires(*f, (p,)),
            i <= ps@.len(),
            polygons_mapped(*f, ps@.subrange(0, i as int), out@),
        decreases ps@.len() - i,
    {
        match map_rings(&ps[i], f) {
            None => {
                return None;
            },
            Some(t) => {
                out.push(t);
                assert(polygons_mapped(*f, ps@.subrange(0, i + 1), out@)) by {
                    assert forall|k: int| 0 <= k < i + 1 implies #[trigger] rings_mapped(
                        *f,
                        ps@.subrange(0, i + 1)[k]@,
                        out@[k]@,
                    ) by {
                        if k < i {
                            assert(ps@.subrange(0, i + 1)[k] == ps@.subrange(0, i as int)[k]);
                        }
                    }
                }
            },
        }
        i = i + 1;
    }
    assert(ps@.subrange(0, ps@.len() as int) == ps@);
    Some(out)
}

proof fn lemma_ring_refusal<F: Fn(&Position) -> Option<Position>>(
    f: F,
    rs: Seq<Vec<Position>>,
    i: int,
    j: int,
)
    requires
        0 <= i < rs.len(),
        0 <= j < rs[i]@.len(),
        call_ensures(f, (&rs[i]@[j],), None),
    ensures
        exists|k: int|
            0 <= k < ring_positions(rs).len() && #[trigger] call_ensures(
                f,
                (&ring_positions(rs)[k],),
                None,
            ),
{
    let s = rs.map_values(|ring: Vec<Position>| ring@);
    assert(s[i] == rs[i]@);
    lemma_flatten_index(s, i, j);
    let k = choose|k: int| 0 <= k < s.flatten().len() && s.flatten()[k] == s[i][j];
    assert(call_ensures(f, (&ring_positions(rs)[k],), None));
}

impl Geometry {
    /// Rebuild the geometry with every position replaced by `f`.
    ///
    /// `f` returning `None` for a position propagates as `None` for the
    /// whole geometry: a line with a hole punched in it is not a partial
    /// success, and silently dropping the vertex would change the
    /// interpretation's shape. An unmodelled geometry has no positions and
    /// is carried over unchanged.
    #[verifier::loop_isolation(false)]
    pub fn try_map_positions<F: Fn(&Position) -> Option<Position>>(&self, f: &F) -> (r: Option<
        Geometry,
    >)
        requires
            forall|p: &Position| call_requires(*f, (p,)),
        ensures
            r matches Some(h) ==> geometry_mapped(*f, *self, h),
            r is None ==> some_position_refused(*f, *self),
        decreases self,
    {
        match self {
            Geometry::Point(p) => match f(p) {
                Some(q) => Some(Geometry::Point(q)),
                None => {
                    assert(call_ensures(*f, (&self.all_positions()[0],), None));
                    assert(some_position_refused(*f, *self));
                    None
                },
            },
            Geometry::MultiPoint(ps) => match map_positions(ps, f) {
                Some(qs) => Some(Geometry::MultiPoint(qs)),
                None => {
                    proof {
                        let i = choose|i: int|
                            0 <= i < ps@.len() && #[trigger] call_ensures(*f, (&ps@[i],), None);
                        assert(call_ensures(*f, (&self.all_positions()[i],), None));
                    }
                    assert(some_position_refused(*f, *self));
                    None
                },
            },
            Geometry::LineString(ps) => match map_positions(ps, f) {
                Some(qs) => Some(Geometry::LineString(qs)),
                None => {
                    proof {
                        let i = choose|i: int|
                            0 <= i < ps@.len() && #[trigger] call_ensures(*f, (&ps@[i],), None);
                        assert(call_ensures(*f, (&self.all_positions()[i],), None));
                    }
                    assert(some_position_refused(*f, *self));
                    None
                },
            },
            Geometry::MultiLineString(rs) => match map_rings(rs, f) {
                Some(ts) => Some(Geometry::MultiLineString(ts)),
                None => {
                    proof {
                        let (i, j) = choose|i: int, j: int|
                            0 <= i < rs@.len() && 0 <= j < rs@[i]@.len() && #[trigger] call_ensures(
                                *f,
                                (&rs@[i]@[j],),
                                None,
                            );
                        lemma_ring_refusal(*f, rs@, i, j);
                        let k = choose|k: int|
                            0 <= k < ring_positions(rs@).len() && #[trigger] call_ensures(
                                *f,
                                (&ring_positions(rs@)[k],),
                                None,
                            );
                        assert(call_ensures(*f, (&self.all_positions()[k],), None));
                    }
                    assert(some_position_refused(*f, *self));
                    None
                },
            },
            Geometry::Polygon(rs) => match map_rings(rs, f) {
                Some(ts) => Some(Geometry::Polygon(ts)),
                None => {
                    proof {
                        let (i, j) = choose|i: int, j: int|
                            0 <= i < rs@.len() && 0 <= j < rs@[i]@.len() && #[trigger] call_ensures(
                                *f,
                                (&rs@[i]@[j],),
                                None,
                            );
                        lemma_ring_refusal(*f, rs@, i, j);
                        let k = choose|k: int|
                            0 <= k < ring_positions(rs@).len() && #[trigger] call_ensures(
                                *f,
                                (&ring_positions(rs@)[k],),
                                None,
                            );
                        assert(call_ensures(*f, (&self.all_positions()[k],), None));
                    }
                    assert(some_position_refused(*f, *self));
                    None
                },
            },
            Geometry::MultiPolygon(ps) => match map_polygons(ps, f) {
                Some(ts) => Some(Geometry::MultiPolygon(ts)),
                None => {
                    proof {
                        let (i, j, k) = choose|i: int, j: int, k: int|
                            0 <= i < ps@.len() && 0 <= j < ps@[i]@.len() && 0 <= k
                                < ps@[i]@[j]@.len() && #[trigger] call_ensures(
                                *f,
                                (&ps@[i]@[j]@[k],),
                                None,
                            );
                        lemma_ring_refusal(*f, ps@[i]@, j, k);
                        let m = choose|m: int|
                            0 <= m < ring_positions(ps@[i]@).len() && #[trigger] call_ensures(
                                *f,
                                (&ring_positions(ps@[i]@)[m],),
                                None,
                            );
                        let s = ps@.map_values(
                            |polygon: Vec<Vec<Position>>| ring_positions(polygon@),
                        );
                        assert(s[i] == ring_positions(ps@[i]@));
                        lemma_flatten_index(s, i, m);
                        let n = choose|n: int|
                            0 <= n < s.flatten().len() && s.flatten()[n] == s[i][m];
                        assert(call_ensures(*f, (&self.all_positions()[n],), None));
                    }
                    assert(some_position_refused(*f, *self));
                    None
                },
            },
            Geometry::GeometryCollection(gs) => {
                let mut out: Vec<Geometry> = Vec::new();
                let mut i: usize = 0;
                while i < gs.len()
                    invariant
                        forall|p: &Position| call_requires(*f, (p,)),
                        i <= gs@.len(),
                        out@.len() == i,
                        collection_mapped(*f, gs@.subrange(0, i as int), out@),
                    decreases gs@.len() - i,
                {
                    match gs[i].try_map_positions(f) {
                        None => {
                            proof {
                                let j = choose|j: int|
                                    0 <= j < gs@[i as int].all_positions().len()
                                        && #[trigger] call_ensures(
                                        *f,
                                        (&gs@[i as int].all_positions()[j],),
                                        None,
                                    );
                                lemma_collection_index(gs@, i as int, j);
                                let k = choose|k: int|
                                    0 <= k < collection_positions(gs@).len()
                                        && collection_positions(gs@)[k] == gs@[i as int].all_positions()[j];
                                assert(call_ensures(*f, (&self.all_positions()[k],), None));
                            }
                            return None;
                        },
                        Some(h) => {
                            let ghost before = out@;
                            out.push(h);
                            assert(gs@.subrange(0, i + 1).subrange(0, i as int) == gs@.subrange(0, i as int));
                            assert(out@.subrange(0, i as int) == before);
                        },
                    }
                    i = i + 1;
                }
                assert(gs@.subrange(0, gs@.len() as int) == gs@);
                let h = Geometry::GeometryCollection(out);
                assert(geometry_mapped(*f, *self, h));
                Some(h)
            },
            Geometry::Unknown(m) => {
                let h = Geometry::Unknown(m.clone());
                assert(geometry_mapped(*f, *self, h));
                Some(h)
            },
        }
    }
}

/// `rel` holds between each position of `ps` and the position at the same
/// place in `qs`.
pub open spec fn positions_correspond(
    ps: Seq<Position>,
    qs: Seq<Position>,
    rel: spec_fn(Position, Position) -> bool,
) -> bool {
    &&& ps.len() == qs.len()
    &&& forall|i: int| 0 <= i < ps.len() ==> #[trigger] rel(ps[i], qs[i])
}

/// [`positions_correspond`], ring by ring.
pub open spec fn rings_correspond(
    rs: Seq<Vec<Position>>,
    ts: Seq<Vec<Position>>,
    rel: spec_fn(Position, Position) -> bool,
) -> bool {
    &&& rs.len() == ts.len()
    &&& forall|i: int| 0 <= i < rs.len() ==> #[trigger] positions_correspond(rs[i]@, ts[i]@, rel)
}

/// [`positions_correspond`], polygon by polygon.
pub open spec fn polygons_correspond(
    ps: Seq<Vec<Vec<Position>>>,
    ts: Seq<Vec<Vec<Position>>>,
    rel: spec_fn(Position, Position) -> bool,
) -> bool {
    &&& ps.len() == ts.len()
    &&& forall|i: int| 0 <= i < ps.len() ==> #[trigger] rings_correspond(ps[i]@, ts[i]@, rel)
}

/// `h` has the shape of `g`, every position of `h` related by `rel` to the
/// position at the same place in `g`, and every unmodelled geometry carried
/// over unchanged.
pub open spec fn geometry_corresponds(
    g: Geometry,
    h: Geometry,
    rel: spec_fn(Position, Position) -> bool,
) -> bool
    decreases g,
{
    match g {
        Geometry::Point(p) => h matches Geometry::Point(q) && rel(p, q),
        Geometry::MultiPoint(ps) => h matches Geometry::MultiPoint(qs) && positions_correspond(
            ps@,
            qs@,
            rel,
        ),
        Geometry::LineString(ps) => h matches Geometry::LineString(qs) && positions_correspond(
            ps@,
            qs@,
            rel,
        ),
        Geometry::MultiLineString(rs) => h matches Geometry::MultiLineString(ts)
            && rings_correspond(rs@, ts@, rel),
        Geometry::Polygon(rs) => h matches Geometry::Polygon(ts) && rings_correspond(
            rs@,
            ts@,
            rel,
        ),
        Geometry::MultiPolygon(ps) => h matches Geometry::MultiPolygon(ts) && polygons_correspond(
            ps@,
            ts@,
            rel,
        ),
        Geometry::GeometryCollection(gs) => h matches Geometry::GeometryCollection(hs)
            && collection_corresponds(gs@, hs@, rel),
        Geometry::Unknown(m) => h == Geometry::Unknown(m),
    }
}

/// [`geometry_corresponds`], member by member.
pub open spec fn collection_corresponds(
    gs: Seq<Geometry>,
    hs: Seq<Geometry>,
    rel: spec_fn(Position, Position) -> bool,
) -> bool
    decreases gs,
{
    if gs.len() == 0 {
        hs.len() == 0
    } else {
        &&& hs.len() == gs.len()
        &&& collection_corresponds(gs.subrange(0, gs.len() - 1), hs.subrange(0, hs.len() - 1), rel)
        &&& geometry_corresponds(gs[gs.len() - 1], hs[hs.len() - 1], rel)
    }
}

/// Some position of `g` satisfies `pred`.
pub open spec fn some_position(g: Geometry, pred: spec_fn(Position) -> bool) -> bool {
    exists|i: int| 0 <= i < g.all_positions().len() && #[trigger] pred(g.all_positions()[i])
}

/// A geometry that [`Geometry::try_map_positions`] rebuilt with `f` relates
/// to the original by any relation that every answer of `f` satisfies.
#[verifier::spinoff_prover]
pub proof fn lemma_mapped_geometry_corresponds<F: Fn(&Position) -> Option<Position>>(
    f: F,
    g: Geometry,
    h: Geometry,
    rel: spec_fn(Position, Position) -> bool,
)
    requires
        geometry_mapped(f, g, h),
        forall|p: Position, q: Position| #[trigger] call_ensures(f, (&p,), Some(q)) ==> rel(p, q),
    ensures
        geometry_corresponds(g, h, rel),
    decreases g,
{
    match g {
        Geometry::MultiLineString(rs) => {
            let ts = h->MultiLineString_0;
            assert forall|i: int| 0 <= i < rs@.len() implies #[trigger] positions_correspond(
                rs@[i]@,
                ts@[i]@,
                rel,
            ) by {
                assert(positions_mapped(f, rs@[i]@, ts@[i]@));
                assert forall|k: int| 0 <= k < rs@[i]@.len() implies #[trigger] rel(rs@[i]@[k], ts@[i]@[k]) by {
                    assert(call_ensures(f, (&rs@[i]@[k],), Some(ts@[i]@[k])));
                }
            }
            assert(rings_correspond(rs@, ts@, rel));
            assert(h == Geometry::MultiLineString(ts));
            assert(g == Geometry::MultiLineString(rs));
        },
        Geometry::Polygon(rs) => {
            let ts = h->Polygon_0;
            assert forall|i: int| 0 <= i < rs@.len() implies #[trigger] positions_correspond(
                rs@[i]@,
                ts@[i]@,
                rel,
            ) by {
                assert(positions_mapped(f, rs@[i]@, ts@[i]@));
                assert forall|k: int| 0 <= k < rs@[i]@.len() implies #[trigger] rel(rs@[i]@[k], ts@[i]@[k]) by {
                    assert(call_ensures(f, (&rs@[i]@[k],), Some(ts@[i]@[k])));
                }
            }
        },
        Geometry::MultiPolygon(ps) => {
            let ts = h->MultiPolygon_0;
            assert forall|i: int| 0 <= i < ps@.len() implies #[trigger] rings_correspond(
                ps@[i]@,
                ts@[i]@,
                rel,
            ) by {
                assert(rings_mapped(f, ps@[i]@, ts@[i]@));
                assert forall|j: int| 0 <= j < ps@[i]@.len() implies #[trigger] positions_correspond(
                    ps@[i]@[j]@,
                    ts@[i]@[j]@,
                    rel,
                ) by {
                    assert(positions_mapped(f, ps@[i]@[j]@, ts@[i]@[j]@));
                assert forall|k: int| 0 <= k < ps@[i]@[j]@.len() implies #[trigger] rel(ps@[i]@[j]@[k], ts@[i]@[j]@[k]) by {
                    assert(call_ensures(f, (&ps@[i]@[j]@[k],), Some(ts@[i]@[j]@[k])));
                }
                }
            }
        },
        Geometry::GeometryCollection(gs) => {
            lemma_mapped_collection_corresponds(f, gs@, h->GeometryCollection_0@, rel);
        },
        Geometry::Point(p) => {
            assert(call_ensures(f, (&p,), Some(h->Point_0)));
        },
        Geometry::MultiPoint(ps) => {
            let qs = h->MultiPoint_0;
            assert forall|k: int| 0 <= k < ps@.len() implies #[trigger] rel(ps@[k], qs@[k]) by {
                assert(call_ensures(f, (&ps@[k],), Some(qs@[k])));
            }
        },
        Geometry::LineString(ps) => {
            let qs = h->LineString_0;
            assert forall|k: int| 0 <= k < ps@.len() implies #[trigger] rel(ps@[k], qs@[k]) by {
                assert(call_ensures(f, (&ps@[k],), Some(qs@[k])));
            }
        },
        Geometry::Unknown(_) => {},
    }
}

proof fn lemma_mapped_collection_corresponds<F: Fn(&Position) -> Option<Position>>(
    f: F,
    gs: Seq<Geometry>,
    hs: Seq<Geometry>,
    rel: spec_fn(Position, Position) -> bool,
)
    requires
        collection_mapped(f, gs, hs),
        forall|p: Position, q: Position| #[trigger] call_ensures(f, (&p,), Some(q)) ==> rel(p, q),
    ensures
        collection_corresponds(gs, hs, rel),
    decreases gs,
{
    if gs.len() > 0 {
        lemma_mapped_collection_corresponds(
            f,
            gs.subrange(0, gs.len() - 1),
            hs.subrange(0, hs.len() - 1),
            rel,
        );
        lemma_mapped_geometry_corresponds(f, gs[gs.len() - 1], hs[hs.len() - 1], rel);
    }
}

proof fn lemma_concat_corresponds(
    a: Seq<Position>,
    b: Seq<Position>,
    c: Seq<Position>,
    d: Seq<Position>,
    rel: spec_fn(Position, Position) -> bool,
)
    requires
        positions_correspond(a, b, rel),
        positions_correspond(c, d, rel),
    ensures
        positions_correspond(a + c, b + d, rel),
{
    assert forall|i: int| 0 <= i < (a + c).len() implies #[trigger] rel((a + c)[i], (b + d)[i]) by {
        if i < a.len() {
            assert(rel(a[i], b[i]));
        } else {
            assert(rel(c[i - a.len()], d[i - a.len()]));
        }
    }
}

proof fn lemma_flatten_corresponds(
    s: Seq<Seq<Position>>,
    t: Seq<Seq<Position>>,
    rel: spec_fn(Position, Position) -> bool,
)
    requires
        s.len() == t.len(),
        forall|i: int| 0 <= i < s.len() ==> #[trigger] positions_correspond(s[i], t[i], rel),
    ensures
        positions_correspond(s.flatten(), t.flatten(), rel),
    decreases s.len(),
{
    if s.len() > 0 {
        assert forall|i: int| 0 <= i < s.drop_first().len() implies #[trigger] positions_correspond(
            s.drop_first()[i],
            t.drop_first()[i],
            rel,
        ) by {
            assert(positions_correspond(s[i + 1], t[i + 1], rel));
        }
        lemma_flatten_corresponds(s.drop_first(), t.drop_first(), rel);
        assert(positions_correspond(s[0], t[0], rel));
        lemma_concat_corresponds(
            s.first(),
            t.first(),
            s.drop_first().flatten(),
            t.drop_first().flatten(),
            rel,
        );
    }
}

proof fn lemma_rings_correspond_flat(
    rs: Seq<Vec<Position>>,
    ts: Seq<Vec<Position>>,
    rel: spec_fn(Position, Position) -> bool,
)
    requires
        rings_correspond(rs, ts, rel),
    ensures
        positions_correspond(ring_positions(rs), ring_positions(ts), rel),
{
    let s = rs.map_values(|ring: Vec<Position>| ring@);
    let t = ts.map_values(|ring: Vec<Position>| ring@);
    assert forall|i: int| 0 <= i < s.len() implies #[trigger] positions_correspond(s[i], t[i], rel) by {
        assert(positions_correspond(rs[i]@, ts[i]@, rel));
    }
    lemma_flatten_corresponds(s, t, rel);
}

/// Two geometries that correspond have the same GeoJSON type, and their
/// positions, listed in document order, are related one to one in place:
/// moving positions never reorders, adds or removes one.
pub proof fn lemma_corresponding_geometries_keep_shape(
    g: Geometry,
    h: Geometry,
    rel: spec_fn(Position, Position) -> bool,
)
    requires
        geometry_corresponds(g, h, rel),
    ensures
        h.type_string_spec() == g.type_string_spec(),
        positions_correspond(g.all_positions(), h.all_positions(), rel),
    decreases g,
{
    match g {
        Geometry::Point(p) => {
            assert(positions_correspond(seq![p], seq![h->Point_0], rel)) by {
                assert(rel(p, h->Point_0));
            }
        },
        Geometry::MultiLineString(rs) => {
            lemma_rings_correspond_flat(rs@, h->MultiLineString_0@, rel);
        },
        Geometry::Polygon(rs) => {
            lemma_rings_correspond_flat(rs@, h->Polygon_0@, rel);
        },
        Geometry::MultiPolygon(ps) => {
            let ts = h->MultiPolygon_0;
            let s = ps@.map_values(|polygon: Vec<Vec<Position>>| ring_positions(polygon@));
            let t = ts@.map_values(|polygon: Vec<Vec<Position>>| ring_positions(polygon@));
            assert forall|i: int| 0 <= i < s.len() implies #[trigger] positions_correspond(
                s[i],
                t[i],
                rel,
            ) by {
                assert(rings_correspond(ps@[i]@, ts@[i]@, rel));
                lemma_rings_correspond_flat(ps@[i]@, ts@[i]@, rel);
            }
            lemma_flatten_corresponds(s, t, rel);
        },
        Geometry::GeometryCollection(gs) => {
            lemma_corresponding_collections_keep_shape(gs@, h->GeometryCollection_0@, rel);
        },
        _ => {},
    }
}

proof fn lemma_corresponding_collections_keep_shape(
    gs: Seq<Geometry>,
    hs: Seq<Geometry>,
    rel: spec_fn(Position, Position) -> bool,
)
    requires
        collection_corresponds(gs, hs, rel),
    ensures
        positions_correspond(collection_positions(gs), collection_positions(hs), rel),
    decreases gs,
{
    if gs.len() > 0 {
        let n = gs.len() - 1;
        lemma_corresponding_collections_keep_shape(gs.subrange(0, n), hs.subrange(0, n), rel);
        lemma_corresponding_geometries_keep_shape(gs[n], hs[n], rel);
        lemma_concat_corresponds(
            collection_positions(gs.subrange(0, n)),
            collection_positions(hs.subrange(0, n)),
            gs[n].all_positions(),
            hs[n].all_positions(),
            rel,
        );
    }
}

fn push_positions<'a>(out: &mut Vec<&'a Position>, ps: &'a Vec<Position>)
    ensures
        referenced(final(out)@) == referenced(old(out)@) + ps@,
{
    let ghost base = referenced(out@);
    let mut i: usize = 0;
    while i < ps.len()
        invariant
            i <= ps@.len(),
            referenced(out@) == base + ps@.subrange(0, i as int),
        decreases ps@.len() - i,
    {
        let ghost prev = out@;
        out.push(&ps[i]);
        assert(referenced(out@) =~= referenced(prev).push(ps@[i as int]));
        assert(ps@.subrange(0, i + 1) =~= ps@.subrange(0, i as int).push(ps@[i as int]));
        assert(referenced(out@) =~= base + ps@.subrange(0, i + 1));
        i = i + 1;
    }
    assert(ps@.subrange(0, ps@.len() as int) == ps@);
}

fn push_ring_positions<'a>(out: &mut Vec<&'a Position>, rs: &'a Vec<Vec<Position>>)
    ensures
        referenced(final(out)@) == referenced(old(out)@) + ring_positions(rs@),
{
    let ghost base = referenced(out@);
    let mut i: usize = 0;
    while i < rs.len()
        invariant
            i <= rs@.len(),
            referenced(out@) == base + ring_positions(rs@.subrange(0, i as int)),
        decreases rs@.len() - i,
    {
        push_positions(out, &rs[i]);
        proof {
            let f = |ring: Vec<Position>| ring@;
            assert(rs@.subrange(0, i + 1).map_values(f) == rs@.subrange(0, i as int).map_values(
                f,
            ).push(rs@[i as int]@));
            rs@.subrange(0, i as int).map_values(f).lemma_flatten_push(rs@[i as int]@);
        }
        i = i + 1;
    }
    assert(rs@.subrange(0, rs@.len() as int) == rs@);
}

fn push_polygon_positions<'a>(out: &mut Vec<&'a Position>, ps: &'a Vec<Vec<Vec<Position>>>)
    ensures
        referenced(final(out)@) == referenced(old(out)@) + polygon_positions(ps@),
{
    let ghost base = referenced(out@);
    let mut i: usize = 0;
    while i < ps.len()
        invariant
            i <= ps@.len(),
            referenced(out@) == base + polygon_positions(ps@.subrange(0, i as int)),
        decreases ps@.len() - i,
    {
        push_ring_positions(out, &ps[i]);
        proof {
            let f = |polygon: Vec<Vec<Position>>| ring_positions(polygon@);
            assert(ps@.subrange(0, i + 1).map_values(f) == ps@.subrange(0, i as int).map_values(
                f,
            ).push(ring_positions(ps@[i as int]@)));
            ps@.subrange(0, i as int).map_values(f).lemma_flatten_push(
                ring_positions(ps@[i as int]@),
            );
        }
        i = i + 1;
    }
    assert(ps@.subrange(0, ps@.len() as int) == ps@);
}

impl Geometry {
    #[verifier::loop_isolation(false)]
    fn collect_positions<'a>(&'a self, out: &mut Vec<&'a Position>)
        ensures
            referenced(final(out)@) == referenced(old(out)@) + self.all_positions(),
        decreases self,
    {
        match self {
            Geometry::Point(p) => {
                out.push(p);
                assert(referenced(out@) == referenced(old(out)@) + seq![*p]);
            },
            Geometry::MultiPoint(ps) => push_positions(out, ps),
            Geometry::LineString(ps) => push_positions(out, ps),
            Geometry::MultiLineString(rs) => push_ring_positions(out, rs),
            Geometry::Polygon(rs) => push_ring_positions(out, rs),
            Geometry::MultiPolygon(ps) => push_polygon_positions(out, ps),
            Geometry::GeometryCollection(gs) => {
                let ghost base = referenced(out@);
                let mut i: usize = 0;
                while i < gs.len()
                    invariant
                        i <= gs@.len(),
                        *self == Geometry::GeometryCollection(*gs),
                        referenced(out@) == base + collection_positions(gs@.subrange(0, i as int)),
                    decreases gs@.len() - i,
                {
                    gs[i].collect_positions(out);
                    assert(gs@.subrange(0, i + 1).subrange(0, i as int) == gs@.subrange(0, i as int));
                    i = i + 1;
                }
                assert(gs@.subrange(0, gs@.len() as int) == gs@);
            },
            Geometry::Unknown(_) => {
                assert(referenced(out@) == referenced(old(out)@) + self.all_positions());
            },
        }
    }

    /// Every position in the geometry, in document order.
    pub fn positions(&self) -> (r: Vec<&Position>)
        ensures
            referenced(r@) == self.all_positions(),
    {
        let mut out: Vec<&Position> = Vec::new();
        self.collect_positions(&mut out);
        assert(referenced(Seq::<&Position>::empty()) + self.all_positions() == self.all_positions());
        out
    }
}

/// Two positions hold the same coordinate tuple.
pub open spec fn same_position(p: Position, q: Position) -> bool {
    q.0@ == p.0@
}

/// Written out rather than derived: the derived impl clones the members of
/// a collection through `Vec<Geometry>`, a cycle through its own impl.
impl Clone for Geometry {
    /// A copy with the same shape, the same coordinate tuples in the same
    /// places, and every unmodelled geometry carried over unchanged.
    fn clone(&self) -> (r: Geometry)
        ensures
            geometry_corresponds(*self, r, |p: Position, q: Position| same_position(p, q)),
    {
        let copy = |p: &Position| -> (r: Option<Position>)
            ensures
                r matches Some(q) && q.0@ == p.0@,
            { Some(Position(copy_values(&p.0))) };
        match self.try_map_positions(&copy) {
            Some(h) => {
                proof {
                    lemma_mapped_geometry_corresponds(
                        copy,
                        *self,
                        h,
                        |p: Position, q: Position| same_position(p, q),
                    );
                }
                h
            },
            None => {
                proof {
                    let i = choose|i: int|
                        0 <= i < self.all_positions().len() && #[trigger] call_ensures(
                            copy,
                            (&self.all_positions()[i],),
                            None,
                        );
                }
                Geometry::GeometryCollection(Vec::new())
            },
        }
    }
}

} // verus!
