//! The gprinterp GPR interpretation exchange format.
//!
//! gprinterp stores interpreted features (picks, horizons, polygons) for a 2D
//! radargram as GeoJSON features in trace/sample index space, together with
//! the axis metadata needed to move them onto a differently processed
//! version of the same radargram.
//!
//! Two things this library is careful about:
//!
//! - Round-tripping: every struct keeps an `extra` object of members it does
//!   not model, and unmodelled geometry types survive as
//!   [`Geometry::Unknown`].
//! - Re-anchoring, or refusing to: [`reanchor`] never falls back to raw
//!   indices when it cannot find a shared invariant axis, because indices
//!   from two processing runs are not comparable and the failure looks
//!   exactly like success. It returns an error instead.
//!
//! Numbers are held as their IEEE 754 binary64 encodings ([`Binary64`]);
//! the library compares them but does no arithmetic on them. Evaluating and
//! inverting a mapping in floating point is supplied to [`reanchor`] by its
//! caller.

pub mod binary64;
pub mod document;
pub mod geometry;
pub mod json;
pub mod mapping;
pub mod reanchor;
pub mod validate;

pub use binary64::Binary64;
pub use document::{
    AnchorAxis, Axes, Axis, Convention, Coordinates, Document, Feature, PrimaryAxis, Source,
};
pub use geometry::{Geometry, GeometryType, Position};
pub use mapping::{Invalidity, Mapping, MappingError, Tiepoint};
pub use reanchor::{reanchor, DroppedFeature, ReanchorError, ReanchorOutcome, RevisionAxes};
pub use validate::{validate, Report, ValidationError, ValidationWarning};

use vstd::prelude::*;

verus! {

/// The `schema` string a conforming document uses.
pub const SCHEMA: &'static str = "gprinterp";

/// The specification version this library implements.
pub const SCHEMA_VERSION: &'static str = "0.1";

} // verus!
