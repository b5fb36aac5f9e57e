//! Region-partitioned spherical proximity index.
//!
//! The library answers "which known points lie within a fixed radius of a
//! query coordinate" for a set of points partitioned into named geographic
//! regions. Points are assigned to every region whose boundary polygon
//! contains them; a query resolves its coordinate to the first containing
//! region (in stored order) and runs a radius search against that region's
//! index alone.
//!
//! All geometry is carried in exact integer form: geographic positions in
//! microdegrees, unit-sphere coordinates in fixed-point billionths. The
//! floating-point projection from degrees to the unit sphere is performed by
//! the caller at ingestion time; the library stores, indexes and compares the
//! projected coordinates with exact integer arithmetic.

pub mod coords;
pub mod geometry;
pub mod index;
pub mod polygon;
pub mod records;
