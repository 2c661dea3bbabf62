# gprinterp

A library for the gprinterp GPR interpretation format: interpreted features
(picks, horizons, polygons) stored as GeoJSON features in trace/sample index
space, with the axis metadata needed to re-anchor them onto a differently
processed revision of the same radargram.

The library is written in Verus. Its functions carry contracts that Verus
proves, except three trusted items in `src/json.rs`: the wrappers around
`serde_json`'s `Map::get`/`Value::as_str` and around `str` equality, and the
specification of `Map::clone`, whose contracts are believed, not proved.

- `src/` — the verified library: the document model, geometries, anchor
  mappings and their validation, the interpolation segment search,
  re-anchoring (choosing the most preferred anchor shared and recorded on
  both sides, dropping out-of-range features, refusing without a shared
  non-synthetic anchor), layers, and validation reports.
  Numbers are held as IEEE 754 binary64 encodings and only compared.
  Public proof functions state the properties that hold across calls: the
  preference order of anchor selection, that every feature is kept or
  reported, that re-anchoring never falls back to raw indices, that layers
  partition the features, and what makes a document invalid.
- `app/` — the `gprinterp` command line (`validate`, `normalize`): JSON
  reading and writing through serde, the text of errors and warnings, and
  the `f64` evaluation and inversion of mappings that re-anchoring is given.
- `tests/` — the library's tests.
