//! Tagged geometry values as the boundary files provide them, and the
//! recursive flattening of polygons, multi-polygons and nested geometry
//! collections into the flat ordered region sequence.

use vstd::prelude::*;
use crate::polygon::Polygon;

verus! {

/// A parsed geometry value. Collections may nest arbitrarily; `Other`
/// stands for the non-area kinds (points, lines and their multi
/// counterparts), which are discarded with a diagnostic, not an error.
pub enum GeometryValue {
    /// A single simple polygon.
    Polygon(Polygon),
    /// A multi-polygon: each member becomes an independent region.
    MultiPolygon(Vec<Polygon>),
    /// A collection of further geometry values, possibly nested.
    GeometryCollection(Vec<GeometryValue>),
    /// Any non-area geometry; it contributes no region.
    Other,
}

/// The flat sequence of simple polygons a geometry value contributes, in
/// encounter order.
pub open spec fn flatten_geometry(g: GeometryValue) -> Seq<Polygon>
    decreases g,
{
    match g {
        GeometryValue::Polygon(p) => seq![p],
        GeometryValue::MultiPolygon(ps) => ps@,
        GeometryValue::GeometryCollection(gs) => flatten_list(gs@),
        GeometryValue::Other => Seq::empty(),
    }
}

/// The concatenation of the flattenings of a sequence of geometry values.
pub open spec fn flatten_list(gs: Seq<GeometryValue>) -> Seq<Polygon>
    decreases gs,
{
    if gs.len() == 0 {
        Seq::empty()
    } else {
        flatten_geometry(gs[0]) + flatten_list(gs.drop_first())
    }
}

/// Whether a geometry value holds any non-area geometry that flattening
/// discards.
pub open spec fn has_discarded(g: GeometryValue) -> bool
    decreases g,
{
    match g {
        GeometryValue::Polygon(_) => false,
        GeometryValue::MultiPolygon(_) => false,
        GeometryValue::GeometryCollection(gs) => list_has_discarded(gs@),
        GeometryValue::Other => true,
    }
}

/// Whether any member of a sequence of geometry values discards something.
pub open spec fn list_has_discarded(gs: Seq<GeometryValue>) -> bool
    decreases gs,
{
    if gs.len() == 0 {
        false
    } else {
        has_discarded(gs[0]) || list_has_discarded(gs.drop_first())
    }
}

/// Flattens one geometry value onto the region sequence: every simple
/// polygon it holds, however deeply nested, is appended in encounter order.
/// Returns whether any non-area geometry was discarded on the way, so the
/// caller can raise a diagnostic.
pub fn match_geometry(geom: GeometryValue, regions: &mut Vec<Polygon>) -> (discarded: bool)
    ensures
        final(regions)@ == old(regions)@ + flatten_geometry(geom),
        discarded == has_discarded(geom),
    decreases geom,
{
    match geom {
        GeometryValue::Polygon(p) => {
            regions.push(p);
            proof {
                assert(regions@ =~= old(regions)@ + flatten_geometry(geom));
            }
            false
        },
        GeometryValue::MultiPolygon(mut ps) => {
            let ghost ps0 = ps@;
            while ps.len() > 0
                invariant
                    regions@ + ps@ == old(regions)@ + ps0,
                decreases ps@.len(),
            {
                let p = ps.remove(0);
                let ghost before = regions@;
                let ghost rest = ps@;
                regions.push(p);
                proof {
                    assert(regions@ + ps@ =~= (before + (seq![p] + rest)));
                    assert(regions@ + ps@ =~= old(regions)@ + ps0);
                }
            }
            proof {
                assert(regions@ + ps@ =~= regions@);
                assert(regions@ =~= old(regions)@ + flatten_geometry(geom));
            }
            false
        },
        GeometryValue::GeometryCollection(mut gs) => {
            let ghost gvec = gs;
            let ghost gs0 = gs@;
            let ghost mut k: int = 0int;
            let mut discarded = false;
            while gs.len() > 0
                invariant
                    0 <= k <= gs0.len(),
                    gs@ == gs0.skip(k),
                    regions@ + flatten_list(gs@) == old(regions)@ + flatten_list(gs0),
                    (discarded || list_has_discarded(gs@)) == list_has_discarded(gs0),
                    decreases_to!(geom => gvec),
                    gvec@ == gs0,
                decreases gs@.len(),
            {
                let g = gs.remove(0);
                proof {
                    assert(g == gs0[k]);
                    assert(decreases_to!(gvec => gs0[k]));
                    assert(gs@ =~= gs0.skip(k + 1));
                }
                let ghost before = regions@;
                let ghost rest = gs@;
                let d = match_geometry(g, regions);
                discarded = discarded || d;
                proof {
                    k = k + 1;
                    assert(rest.insert(0, g).drop_first() =~= rest);
                    assert(rest.insert(0, g)[0] == g);
                    assert(regions@ + flatten_list(gs@) =~= (before + flatten_geometry(g))
                        + flatten_list(rest));
                    assert((before + flatten_geometry(g)) + flatten_list(rest) =~= before + (
                    flatten_geometry(g) + flatten_list(rest)));
                }
            }
            proof {
                assert(regions@ + flatten_list(gs@) =~= regions@);
                assert(regions@ =~= old(regions)@ + flatten_geometry(geom));
            }
            discarded
        },
        GeometryValue::Other => {
            proof {
                assert(regions@ =~= old(regions)@ + flatten_geometry(geom));
            }
            true
        },
    }
}

} // verus!
