//! Point records and the query request/result types, in integer form.

use vstd::prelude::*;
use crate::coords::{GeoPos, SphereCoord};

verus! {

/// One point record from the ingested dataset: an identifier, its
/// geographic position, and its unit-sphere projection. The projection is
/// floating-point trigonometry and is computed by the ingesting caller; the
/// record carries the rounded fixed-point result so that every later
/// comparison is exact.
#[derive(Clone, Copy, Debug, PartialEq, Eq, Structural)]
pub struct CsvRecord {
    /// Dataset identifier, unique within the input.
    pub id: usize,
    /// Geographic position in microdegrees.
    pub pos: GeoPos,
    /// Fixed-point unit-sphere projection of `pos`.
    pub xyz: SphereCoord,
}

impl CsvRecord {
    /// The position is in range and the projected coordinate is bounded.
    pub open spec fn wf(self) -> bool {
        &&& self.pos.wf()
        &&& self.xyz.wf()
    }

    /// The record's coordinate on the unit sphere.
    pub fn as_xyz(&self) -> (c: SphereCoord)
        ensures
            c == self.xyz,
    {
        self.xyz
    }
}

/// A proximity query: the coordinate to search around, in microdegrees.
#[derive(Clone, Copy, Debug, PartialEq, Eq, Structural)]
pub struct SearchRequest {
    /// Query longitude in microdegrees.
    pub longitude_micro: i64,
    /// Query latitude in microdegrees.
    pub latitude_micro: i64,
}

impl SearchRequest {
    /// The request's coordinate as a geographic position.
    pub open spec fn spec_pos(self) -> GeoPos {
        GeoPos { lon_micro: self.longitude_micro, lat_micro: self.latitude_micro }
    }

    /// Executable form of `spec_pos`.
    pub fn pos(&self) -> (p: GeoPos)
        ensures
            p == self.spec_pos(),
    {
        GeoPos { lon_micro: self.longitude_micro, lat_micro: self.latitude_micro }
    }
}

/// One match returned by a query: the record's identifier and position.
#[derive(Clone, Copy, Debug, PartialEq, Eq, Structural)]
pub struct SearchResult {
    /// Identifier of the matched record.
    pub id: usize,
    /// Longitude of the matched record, in microdegrees.
    pub longitude_micro: i64,
    /// Latitude of the matched record, in microdegrees.
    pub latitude_micro: i64,
}

/// The hydrated result for record `r`.
pub open spec fn result_of(r: CsvRecord) -> SearchResult {
    SearchResult {
        id: r.id,
        longitude_micro: r.pos.lon_micro,
        latitude_micro: r.pos.lat_micro,
    }
}

} // verus!
