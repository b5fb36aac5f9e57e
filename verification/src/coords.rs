//! Integer models of geographic positions and unit-sphere coordinates, and
//! the conversion from a great-circle radius to a squared chord threshold.

use vstd::prelude::*;

verus! {

/// Mean Earth radius, in kilometres.
pub const EARTH_RADIUS_IN_KM: u64 = 6371;

/// Fixed-point scale of unit-sphere coordinates: the value 1.0 is stored as
/// `SPHERE_SCALE` (billionths).
pub const SPHERE_SCALE: u64 = 1_000_000_000;

/// Largest radius (in kilometres) the threshold conversion accepts; far
/// beyond any meaningful great-circle distance, and small enough that the
/// squared fixed-point threshold fits in a `u128`.
pub const MAX_RADIUS_KM: u64 = 1_000_000;

/// A geographic position in integer microdegrees (longitude first, as in
/// GeoJSON coordinate order).
#[derive(Clone, Copy, Debug, PartialEq, Eq, Structural)]
pub struct GeoPos {
    /// Longitude in microdegrees, in [-180_000_000, 180_000_000].
    pub lon_micro: i64,
    /// Latitude in microdegrees, in [-90_000_000, 90_000_000].
    pub lat_micro: i64,
}

impl GeoPos {
    /// The position lies in the valid geographic ranges.
    pub open spec fn wf(self) -> bool {
        &&& -180_000_000 <= self.lon_micro <= 180_000_000
        &&& -90_000_000 <= self.lat_micro <= 90_000_000
    }
}

/// A point on (or near) the unit sphere, each component in fixed-point
/// billionths (`SPHERE_SCALE` = 1.0).
#[derive(Clone, Copy, Debug, PartialEq, Eq, Structural)]
pub struct SphereCoord {
    /// Fixed-point x component.
    pub x: i64,
    /// Fixed-point y component.
    pub y: i64,
    /// Fixed-point z component.
    pub z: i64,
}

/// The squared Euclidean (chord) distance between two fixed-point
/// coordinates, in squared fixed-point units.
pub open spec fn spec_squared_chord(a: SphereCoord, b: SphereCoord) -> int {
    (a.x - b.x) * (a.x - b.x) + (a.y - b.y) * (a.y - b.y) + (a.z - b.z) * (a.z - b.z)
}

impl SphereCoord {
    /// Each component is bounded by twice the scale, which keeps every
    /// squared chord distance within machine range. Any rounded projection
    /// of a genuine unit vector satisfies this with a wide margin.
    pub open spec fn wf(self) -> bool {
        &&& -2_000_000_000 <= self.x <= 2_000_000_000
        &&& -2_000_000_000 <= self.y <= 2_000_000_000
        &&& -2_000_000_000 <= self.z <= 2_000_000_000
    }

    /// The squared norm is within a small tolerance of the squared scale:
    /// the coordinate is (up to rounding) a unit vector.
    pub open spec fn is_near_unit(self) -> bool {
        let norm2 = self.x * self.x + self.y * self.y + self.z * self.z;
        &&& 1_000_000_000_000_000_000 - 100_000_000_000 <= norm2
        &&& norm2 <= 1_000_000_000_000_000_000 + 100_000_000_000
    }

    /// Runtime check of `is_near_unit`, for validating coordinates produced
    /// by an unverified projection.
    pub fn check_near_unit(&self) -> (r: bool)
        ensures
            r == self.is_near_unit(),
    {
        if self.x < -2_000_000_000 || self.x > 2_000_000_000 || self.y < -2_000_000_000
            || self.y > 2_000_000_000 || self.z < -2_000_000_000 || self.z > 2_000_000_000 {
            proof {
                lemma_out_of_range_not_near_unit(*self);
            }
            return false;
        }
        let xi: i128 = self.x as i128;
        let yi: i128 = self.y as i128;
        let zi: i128 = self.z as i128;
        proof {
            lemma_diff_square_bound(xi as int);
            lemma_diff_square_bound(yi as int);
            lemma_diff_square_bound(zi as int);
        }
        let norm2: i128 = xi * xi + yi * yi + zi * zi;
        1_000_000_000_000_000_000 - 100_000_000_000 <= norm2
            && norm2 <= 1_000_000_000_000_000_000 + 100_000_000_000
    }
}

/// A coordinate with a component beyond twice the scale cannot be near-unit:
/// that component's square alone exceeds the tolerance band.
proof fn lemma_out_of_range_not_near_unit(c: SphereCoord)
    requires
        !c.wf(),
    ensures
        !c.is_near_unit(),
{
    lemma_square_nonneg(c.x as int);
    lemma_square_nonneg(c.y as int);
    lemma_square_nonneg(c.z as int);
    if c.x < -2_000_000_000 || c.x > 2_000_000_000 {
        lemma_square_large(c.x as int);
    } else if c.y < -2_000_000_000 || c.y > 2_000_000_000 {
        lemma_square_large(c.y as int);
    } else {
        lemma_square_large(c.z as int);
    }
}

/// A near-unit coordinate is well formed: each component's square is bounded
/// by the squared norm, so each component is bounded by twice the scale.
pub proof fn lemma_near_unit_wf(c: SphereCoord)
    requires
        c.is_near_unit(),
    ensures
        c.wf(),
{
    if !c.wf() {
        lemma_out_of_range_not_near_unit(c);
    }
}

/// The square of an integer is non-negative.
proof fn lemma_square_nonneg(v: int)
    ensures
        v * v >= 0,
{
    assert(v * v >= 0) by (nonlinear_arith);
}

/// A value beyond twice the scale has a square beyond the near-unit bound.
proof fn lemma_square_large(v: int)
    requires
        v < -2_000_000_000 || v > 2_000_000_000,
    ensures
        v * v > 1_000_000_000_000_000_000 + 100_000_000_000,
{
    assert(v * v > 1_000_000_000_000_000_000 + 100_000_000_000) by (nonlinear_arith)
        requires
            v < -2_000_000_000 || v > 2_000_000_000,
    ;
}

/// Computes the squared chord distance between two well-formed fixed-point
/// coordinates with exact integer arithmetic.
pub fn squared_chord(a: &SphereCoord, b: &SphereCoord) -> (d: u128)
    requires
        a.wf(),
        b.wf(),
    ensures
        d == spec_squared_chord(*a, *b),
{
    let dx: i128 = a.x as i128 - b.x as i128;
    let dy: i128 = a.y as i128 - b.y as i128;
    let dz: i128 = a.z as i128 - b.z as i128;
    proof {
        lemma_diff_square_bound(dx as int);
        lemma_diff_square_bound(dy as int);
        lemma_diff_square_bound(dz as int);
    }
    (dx * dx + dy * dy + dz * dz) as u128
}

/// The square of a difference of well-formed components is non-negative and
/// bounded.
proof fn lemma_diff_square_bound(v: int)
    requires
        -4_000_000_000 <= v <= 4_000_000_000,
    ensures
        0 <= v * v <= 16_000_000_000_000_000_000,
{
    assert(0 <= v * v <= 16_000_000_000_000_000_000) by (nonlinear_arith)
        requires
            -4_000_000_000 <= v <= 4_000_000_000,
    ;
}

/// The squared fixed-point chord threshold equivalent to a great-circle
/// radius of `km` kilometres, under the small-angle chord approximation:
/// `floor(km * SPHERE_SCALE / EARTH_RADIUS_IN_KM)` squared.
pub open spec fn spec_squared_threshold(km: int) -> int {
    let q = km * (SPHERE_SCALE as int) / (EARTH_RADIUS_IN_KM as int);
    q * q
}

/// Converts a radius in kilometres to the squared chord threshold on
/// fixed-point unit-sphere coordinates.
pub fn kilometres_to_unit_sphere_squared_euclidean(km_dist: u64) -> (d: u128)
    requires
        km_dist <= MAX_RADIUS_KM,
    ensures
        d == spec_squared_threshold(km_dist as int),
{
    let q: u128 = (km_dist as u128) * (SPHERE_SCALE as u128) / (EARTH_RADIUS_IN_KM as u128);
    proof {
        vstd::arithmetic::div_mod::lemma_div_pos_is_pos(km_dist as int * 1_000_000_000, 6371);
        vstd::arithmetic::div_mod::lemma_multiply_divide_le(
            km_dist as int * 1_000_000_000,
            6371,
            160_000_000_000_000,
        );
        lemma_quotient_square_bound(q as int);
    }
    q * q
}

/// A threshold quotient is small enough that its square fits in a u128.
proof fn lemma_quotient_square_bound(q: int)
    requires
        0 <= q <= 160_000_000_000_000,
    ensures
        0 <= q * q <= 0x1000_0000_0000_0000_0000_0000_0000,
{
    assert(0 <= q * q <= 0x1000_0000_0000_0000_0000_0000_0000) by (nonlinear_arith)
        requires
            0 <= q <= 160_000_000_000_000,
    ;
}

/// Strict monotonicity of the radius conversion: a strictly larger
/// non-negative radius always yields a strictly larger squared threshold.
pub proof fn lemma_threshold_strictly_monotonic(r1: int, r2: int)
    requires
        0 <= r1 < r2,
    ensures
        spec_squared_threshold(r1) < spec_squared_threshold(r2),
{
    let a = r1 * 1_000_000_000;
    let b = r2 * 1_000_000_000;
    let q1 = a / 6371;
    let q2 = b / 6371;
    vstd::arithmetic::div_mod::lemma_div_pos_is_pos(a, 6371);
    vstd::arithmetic::div_mod::lemma_hoist_over_denominator(a, 1, 6371nat);
    assert(a / 6371 + 1 == (a + 6371) / 6371);
    vstd::arithmetic::div_mod::lemma_div_is_ordered(a + 6371, b, 6371);
    assert(q2 >= q1 + 1);
    assert(q1 * q1 < q2 * q2) by (nonlinear_arith)
        requires
            0 <= q1,
            q2 >= q1 + 1,
    ;
}

} // verus!
