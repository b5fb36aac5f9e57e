//! Simple polygons in geographic coordinates and an exact integer
//! point-in-polygon test by ray casting.

use vstd::prelude::*;
use crate::coords::GeoPos;

verus! {

/// The z component of the cross product `(b - a) x (p - a)`, in exact
/// integer arithmetic over microdegrees: positive when `p` lies to the left
/// of the directed edge from `a` to `b`.
pub open spec fn edge_side(a: GeoPos, b: GeoPos, p: GeoPos) -> int {
    (b.lon_micro - a.lon_micro) * (p.lat_micro - a.lat_micro) - (b.lat_micro - a.lat_micro) * (
    p.lon_micro - a.lon_micro)
}

/// Whether the eastward horizontal ray from `p` crosses the edge `(a, b)`.
/// The edge counts when it spans `p`'s latitude half-openly (one endpoint
/// strictly north of `p`, the other at or south of it) and the crossing lies
/// strictly east of `p`. Positions exactly on an edge may resolve to either
/// side; the test is exact everywhere else.
pub open spec fn edge_crosses(a: GeoPos, b: GeoPos, p: GeoPos) -> bool {
    &&& ((a.lat_micro > p.lat_micro) != (b.lat_micro > p.lat_micro))
    &&& if b.lat_micro > a.lat_micro {
        edge_side(a, b, p) > 0
    } else {
        edge_side(a, b, p) < 0
    }
}

/// An immutable simple polygon: one ring of vertices in geographic
/// (longitude, latitude) order. Edge `i` joins vertex `i` to vertex
/// `(i + 1) mod len`, so the ring closes itself; a repeated final vertex is
/// harmless (the closing edge then spans no latitude and never crosses).
#[derive(Clone, Debug)]
pub struct Polygon {
    /// The vertices of the boundary ring.
    pub ring: Vec<GeoPos>,
}

impl Polygon {
    /// All vertices lie in the valid geographic ranges.
    pub open spec fn wf(self) -> bool {
        forall|i: int| 0 <= i < self.ring@.len() ==> (#[trigger] self.ring@[i]).wf()
    }

    /// The vertex that edge `i` ends at: the next vertex, wrapping to the
    /// first on the last edge.
    pub open spec fn edge_end(self, i: int) -> GeoPos {
        if i + 1 == self.ring@.len() {
            self.ring@[0]
        } else {
            self.ring@[i + 1]
        }
    }

    /// How many of the first `n` edges the eastward ray from `p` crosses.
    pub open spec fn crossings_up_to(self, p: GeoPos, n: int) -> nat
        decreases n,
    {
        if n <= 0 {
            0
        } else {
            self.crossings_up_to(p, n - 1) + (if edge_crosses(
                self.ring@[n - 1],
                self.edge_end(n - 1),
                p,
            ) {
                1nat
            } else {
                0nat
            })
        }
    }

    /// Ray-casting containment: `p` is inside the polygon exactly when the
    /// eastward ray from `p` crosses the boundary an odd number of times.
    pub open spec fn spec_contains(self, p: GeoPos) -> bool {
        self.crossings_up_to(p, self.ring@.len() as int) % 2 == 1
    }

    /// Executable point-in-polygon test, exact over integer microdegrees.
    pub fn contains(&self, p: &GeoPos) -> (r: bool)
        requires
            self.wf(),
            p.wf(),
        ensures
            r == self.spec_contains(*p),
    {
        let n = self.ring.len();
        let mut count: usize = 0;
        for i in 0..n
            invariant
                n == self.ring@.len(),
                self.wf(),
                p.wf(),
                count == self.crossings_up_to(*p, i as int),
                count <= i,
        {
            let a = self.ring[i];
            let b = self.ring[if i + 1 == n {
                0
            } else {
                i + 1
            }];
            if edge_crosses_exec(&a, &b, p) {
                count = count + 1;
            }
        }
        count % 2 == 1
    }
}

/// Executable form of `edge_crosses` over well-formed positions.
fn edge_crosses_exec(a: &GeoPos, b: &GeoPos, p: &GeoPos) -> (r: bool)
    requires
        a.wf(),
        b.wf(),
        p.wf(),
    ensures
        r == edge_crosses(*a, *b, *p),
{
    let spans = (a.lat_micro > p.lat_micro) != (b.lat_micro > p.lat_micro);
    if !spans {
        return false;
    }
    let dlon: i128 = b.lon_micro as i128 - a.lon_micro as i128;
    let dlat: i128 = b.lat_micro as i128 - a.lat_micro as i128;
    let plat: i128 = p.lat_micro as i128 - a.lat_micro as i128;
    let plon: i128 = p.lon_micro as i128 - a.lon_micro as i128;
    proof {
        lemma_coord_product_bound(dlon as int, plat as int);
        lemma_coord_product_bound(dlat as int, plon as int);
    }
    let side: i128 = dlon * plat - dlat * plon;
    if b.lat_micro > a.lat_micro {
        side > 0
    } else {
        side < 0
    }
}

/// A product of two coordinate differences is bounded well within i128
/// range: each factor is at most 360 million in magnitude.
proof fn lemma_coord_product_bound(u: int, v: int)
    requires
        -360_000_000 <= u <= 360_000_000,
        -360_000_000 <= v <= 360_000_000,
    ensures
        -129_600_000_000_000_000 <= u * v <= 129_600_000_000_000_000,
{
    assert(-129_600_000_000_000_000 <= u * v <= 129_600_000_000_000_000) by (nonlinear_arith)
        requires
            -360_000_000 <= u <= 360_000_000,
            -360_000_000 <= v <= 360_000_000,
    ;
}

} // verus!
