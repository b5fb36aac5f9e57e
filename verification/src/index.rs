//! The region-partitioned proximity index: per-region spatial indices over
//! fixed-point unit-sphere coordinates, the builder that assigns records to
//! the regions containing them, and the query engine.

use vstd::prelude::*;
use crate::coords::{
    GeoPos, SphereCoord, spec_squared_chord, squared_chord, spec_squared_threshold,
    kilometres_to_unit_sphere_squared_euclidean, MAX_RADIUS_KM,
};
use crate::polygon::Polygon;
use crate::records::{CsvRecord, SearchRequest, SearchResult, result_of};

verus! {

/// One indexed point: its unit-sphere coordinate and the internal key (the
/// record's position in the record table) it stands for.
#[derive(Clone, Copy, Debug, PartialEq, Eq, Structural)]
pub struct IndexEntry {
    /// Fixed-point unit-sphere coordinate of the indexed record.
    pub coord: SphereCoord,
    /// Position of the record in the record table.
    pub key: usize,
}

/// The keys of the entries lying within squared chord distance `d` of `q`,
/// in entry order (the index's natural iteration order). The boundary is
/// included: an entry at exactly the threshold distance is returned.
pub open spec fn within_spec(entries: Seq<IndexEntry>, q: SphereCoord, d: int) -> Seq<usize>
    decreases entries.len(),
{
    if entries.len() == 0 {
        Seq::empty()
    } else {
        let rest = within_spec(entries.drop_last(), q, d);
        if spec_squared_chord(entries.last().coord, q) <= d {
            rest.push(entries.last().key)
        } else {
            rest
        }
    }
}

/// A spatial index over the points of one region: supports insertion during
/// the build phase and an exact radius (within-distance) search afterwards.
#[derive(Clone, Debug)]
pub struct RegionIndex {
    /// The indexed points, in insertion order.
    pub entries: Vec<IndexEntry>,
}

impl RegionIndex {
    /// Every indexed coordinate is bounded.
    pub open spec fn coords_wf(self) -> bool {
        forall|i: int| 0 <= i < self.entries@.len() ==> (#[trigger] self.entries@[i]).coord.wf()
    }

    /// Every key refers below `n` (into a record table of length `n`).
    pub open spec fn keys_bounded(self, n: int) -> bool {
        forall|i: int| 0 <= i < self.entries@.len() ==> ((#[trigger] self.entries@[i]).key as int)
            < n
    }

    /// An empty index.
    pub fn new() -> (r: RegionIndex)
        ensures
            r.entries@ == Seq::<IndexEntry>::empty(),
    {
        RegionIndex { entries: Vec::new() }
    }

    /// Inserts one coordinate under the given key.
    pub fn add(&mut self, coord: &SphereCoord, item: usize)
        ensures
            final(self).entries@ == old(self).entries@.push(
                (IndexEntry { coord: *coord, key: item }),
            ),
    {
        self.entries.push(IndexEntry { coord: *coord, key: item });
    }

    /// Radius search: returns the keys of exactly the entries within squared
    /// chord distance `d` of `q` (boundary included), in entry order.
    pub fn within(&self, q: &SphereCoord, d: u128) -> (found: Vec<usize>)
        requires
            q.wf(),
            self.coords_wf(),
        ensures
            found@ == within_spec(self.entries@, *q, d as int),
    {
        let mut found: Vec<usize> = Vec::new();
        let n = self.entries.len();
        for i in 0..n
            invariant
                n == self.entries@.len(),
                q.wf(),
                self.coords_wf(),
                found@ == within_spec(self.entries@.take(i as int), *q, d as int),
        {
            let e = self.entries[i];
            let dist = squared_chord(&e.coord, q);
            proof {
                assert(self.entries@.take(i as int + 1).drop_last() =~= self.entries@.take(
                    i as int,
                ));
                assert(self.entries@.take(i as int + 1).last() == self.entries@[i as int]);
            }
            if dist <= d {
                found.push(e.key);
            }
        }
        proof {
            assert(self.entries@.take(n as int) =~= self.entries@);
        }
        found
    }
}

/// Radius correctness: a key is returned by the radius search exactly when
/// some entry carries that key within the threshold (boundary included).
pub proof fn lemma_within_exact(entries: Seq<IndexEntry>, q: SphereCoord, d: int, key: usize)
    ensures
        within_spec(entries, q, d).contains(key) <==> exists|i: int|
            0 <= i < entries.len() && (#[trigger] entries[i]).key == key && spec_squared_chord(
                entries[i].coord,
                q,
            ) <= d,
    decreases entries.len(),
{
    if entries.len() == 0 {
    } else {
        let prefix = entries.drop_last();
        let rest = within_spec(prefix, q, d);
        let w = within_spec(entries, q, d);
        lemma_within_exact(prefix, q, d, key);
        if w.contains(key) {
            let t = choose|t: int| 0 <= t < w.len() && w[t] == key;
            if spec_squared_chord(entries.last().coord, q) <= d {
                if t < rest.len() {
                    assert(rest.contains(key)) by {
                        assert(rest[t] == key);
                    }
                } else {
                    assert(entries[entries.len() - 1].key == key);
                }
            } else {
                assert(rest.contains(key)) by {
                    assert(rest[t] == key);
                }
            }
            if rest.contains(key) {
                let i = choose|i: int|
                    0 <= i < prefix.len() && (#[trigger] prefix[i]).key == key
                        && spec_squared_chord(prefix[i].coord, q) <= d;
                assert(entries[i].key == key && spec_squared_chord(entries[i].coord, q) <= d);
            }
        }
        if exists|i: int|
            0 <= i < entries.len() && (#[trigger] entries[i]).key == key && spec_squared_chord(
                entries[i].coord,
                q,
            ) <= d {
            let i = choose|i: int|
                0 <= i < entries.len() && (#[trigger] entries[i]).key == key
                    && spec_squared_chord(entries[i].coord, q) <= d;
            if i < entries.len() - 1 {
                assert(prefix[i] == entries[i]);
                assert(rest.contains(key));
                let t = choose|t: int| 0 <= t < rest.len() && rest[t] == key;
                assert(w.contains(key)) by {
                    assert(w[t] == key);
                }
            } else {
                assert(w.contains(key)) by {
                    assert(w[w.len() - 1] == key);
                }
            }
        }
    }
}

/// Keys returned by the radius search stay within any bound that holds of
/// the index's own keys.
pub proof fn lemma_within_keys_bounded(entries: Seq<IndexEntry>, q: SphereCoord, d: int, n: int)
    requires
        forall|i: int| 0 <= i < entries.len() ==> ((#[trigger] entries[i]).key as int) < n,
    ensures
        forall|t: int| 0 <= t < within_spec(entries, q, d).len() ==> ((#[trigger] within_spec(
            entries,
            q,
            d,
        )[t]) as int) < n,
    decreases entries.len(),
{
    if entries.len() == 0 {
    } else {
        let prefix = entries.drop_last();
        let rest = within_spec(prefix, q, d);
        let w = within_spec(entries, q, d);
        assert(forall|i: int| 0 <= i < prefix.len() ==> ((#[trigger] prefix[i]).key as int) < n);
        lemma_within_keys_bounded(prefix, q, d, n);
        assert forall|t: int| 0 <= t < w.len() implies ((w[t]) as int) < n by {
            if spec_squared_chord(entries.last().coord, q) <= d {
                if t < rest.len() {
                    assert(w[t] == rest[t]);
                } else {
                    assert(w[t] == entries.last().key);
                    assert(((entries[entries.len() - 1]).key as int) < n);
                }
            } else {
                assert(w[t] == rest[t]);
            }
        }
    }
}

/// The entries a region's index receives from a record table: for each
/// record whose position the region's polygon contains, in table order, one
/// entry with the record's coordinate under the record's position as key.
pub open spec fn assigned_entries(poly: Polygon, records: Seq<CsvRecord>) -> Seq<IndexEntry>
    decreases records.len(),
{
    if records.len() == 0 {
        Seq::empty()
    } else {
        let rest = assigned_entries(poly, records.drop_last());
        if poly.spec_contains(records.last().pos) {
            rest.push(
                IndexEntry { coord: records.last().xyz, key: (records.len() - 1) as usize },
            )
        } else {
            rest
        }
    }
}

/// Referential integrity of the built entries: every assigned entry's key
/// names an existing record, its coordinate is that record's, and the
/// polygon really contains that record's position. In particular a region's
/// index never holds a coordinate that corresponds to no record.
pub proof fn lemma_assigned_entries_wf(poly: Polygon, records: Seq<CsvRecord>)
    requires
        records.len() <= usize::MAX,
        forall|i: int| 0 <= i < records.len() ==> (#[trigger] records[i]).wf(),
    ensures
        forall|k: int| 0 <= k < assigned_entries(poly, records).len() ==> {
            let e = #[trigger] assigned_entries(poly, records)[k];
            &&& (e.key as int) < records.len()
            &&& records[e.key as int].xyz == e.coord
            &&& poly.spec_contains(records[e.key as int].pos)
            &&& e.coord.wf()
        },
    decreases records.len(),
{
    if records.len() == 0 {
    } else {
        let prefix = records.drop_last();
        assert(forall|i: int| 0 <= i < prefix.len() ==> (#[trigger] prefix[i]).wf());
        lemma_assigned_entries_wf(poly, prefix);
        let a = assigned_entries(poly, records);
        let rest = assigned_entries(poly, prefix);
        assert forall|k: int| 0 <= k < a.len() implies {
            let e = #[trigger] a[k];
            &&& (e.key as int) < records.len()
            &&& records[e.key as int].xyz == e.coord
            &&& poly.spec_contains(records[e.key as int].pos)
            &&& e.coord.wf()
        } by {
            if k < rest.len() {
                assert(a[k] == rest[k]);
                assert(prefix[rest[k].key as int] == records[rest[k].key as int]);
            } else {
                assert(poly.spec_contains(records.last().pos));
                assert(a[k] == IndexEntry {
                    coord: records.last().xyz,
                    key: (records.len() - 1) as usize,
                });
                assert(records[records.len() - 1].wf());
            }
        }
    }
}

/// Containment completeness: every record whose position a polygon contains
/// appears in that polygon's assigned entries, under its own position as key
/// and with its own coordinate.
pub proof fn lemma_containment_completeness(poly: Polygon, records: Seq<CsvRecord>, i: int)
    requires
        records.len() <= usize::MAX,
        0 <= i < records.len(),
        poly.spec_contains(records[i].pos),
    ensures
        exists|k: int| 0 <= k < assigned_entries(poly, records).len() && (
        #[trigger] assigned_entries(poly, records)[k]).key as int == i && assigned_entries(
            poly,
            records,
        )[k].coord == records[i].xyz,
    decreases records.len(),
{
    let a = assigned_entries(poly, records);
    let prefix = records.drop_last();
    let rest = assigned_entries(poly, prefix);
    if i == records.len() - 1 {
        assert(records.last() == records[i]);
        assert(a == rest.push(
            (IndexEntry { coord: records.last().xyz, key: (records.len() - 1) as usize }),
        ));
        assert(a[a.len() - 1].key as int == i && a[a.len() - 1].coord == records[i].xyz);
    } else {
        assert(prefix[i] == records[i]);
        lemma_containment_completeness(poly, prefix, i);
        let k = choose|k: int|
            0 <= k < rest.len() && ((#[trigger] rest[k]).key as int) == i && rest[k].coord
                == prefix[i].xyz;
        assert(a[k] == rest[k]);
        assert(a[k].key as int == i && a[k].coord == records[i].xyz);
    }
}

/// The position of the first region (in stored order, from position `j` on)
/// whose polygon contains `p`.
pub open spec fn first_containing_from(regions: Seq<Polygon>, p: GeoPos, j: int) -> Option<int>
    decreases regions.len() - j,
{
    if j < 0 || j >= regions.len() {
        None
    } else if regions[j].spec_contains(p) {
        Some(j)
    } else {
        first_containing_from(regions, p, j + 1)
    }
}

/// The position of the first region in stored order whose polygon contains
/// `p`, if any: the tie-break when regions overlap.
pub open spec fn first_containing(regions: Seq<Polygon>, p: GeoPos) -> Option<int> {
    first_containing_from(regions, p, 0)
}

/// Region resolution is exact: it returns `None` exactly when no region
/// contains the position, and otherwise the least containing position.
pub proof fn lemma_first_containing(regions: Seq<Polygon>, p: GeoPos, j: int)
    requires
        0 <= j <= regions.len(),
    ensures
        match first_containing_from(regions, p, j) {
            None => forall|k: int|
                j <= k < regions.len() ==> !(#[trigger] regions[k]).spec_contains(p),
            Some(m) => j <= m < regions.len() && regions[m].spec_contains(p) && forall|k: int|
                j <= k < m ==> !(#[trigger] regions[k]).spec_contains(p),
        },
    decreases regions.len() - j,
{
    if j < regions.len() {
        if !regions[j].spec_contains(p) {
            lemma_first_containing(regions, p, j + 1);
        }
    }
}

/// Resolves a position to the first containing region, in stored order.
fn resolve_region(regions: &Vec<Polygon>, p: &GeoPos) -> (r: Option<usize>)
    requires
        forall|i: int| 0 <= i < regions@.len() ==> (#[trigger] regions@[i]).wf(),
        p.wf(),
    ensures
        match r {
            Some(j) => first_containing(regions@, *p) == Some(j as int),
            None => first_containing(regions@, *p) is None,
        },
{
    let n = regions.len();
    for i in 0..n
        invariant
            n == regions@.len(),
            p.wf(),
            forall|k: int| 0 <= k < regions@.len() ==> (#[trigger] regions@[k]).wf(),
            first_containing(regions@, *p) == first_containing_from(regions@, *p, i as int),
    {
        if regions[i].contains(p) {
            return Some(i);
        }
    }
    None
}

/// The combined immutable structure: the ordered regions, one spatial index
/// per region position, and the record table keyed by position. Built once,
/// then only read.
#[derive(Clone, Debug)]
pub struct RegionTrees {
    /// The region boundary polygons, in significant order.
    pub regions: Vec<Polygon>,
    /// The per-region spatial indices, position `j` serving region `j`.
    pub trees_map: Vec<RegionIndex>,
    /// The record table; a record's position is its internal key.
    pub records: Vec<CsvRecord>,
}

impl RegionTrees {
    /// Every region polygon is well formed.
    pub open spec fn regions_wf(self) -> bool {
        forall|j: int| 0 <= j < self.regions@.len() ==> (#[trigger] self.regions@[j]).wf()
    }

    /// Every record is well formed.
    pub open spec fn records_wf(self) -> bool {
        forall|i: int| 0 <= i < self.records@.len() ==> (#[trigger] self.records@[i]).wf()
    }

    /// Every index holds bounded coordinates and keys into the record table.
    pub open spec fn indices_wf(self) -> bool {
        forall|j: int| 0 <= j < self.trees_map@.len() ==> (#[trigger] self.trees_map@[j]).coords_wf()
            && self.trees_map@[j].keys_bounded(self.records@.len() as int)
    }

    /// Full well-formedness: the parts above, and one index per region.
    pub open spec fn wf(self) -> bool {
        &&& self.regions_wf()
        &&& self.records_wf()
        &&& self.indices_wf()
        &&& self.trees_map@.len() == self.regions@.len()
    }
}

/// Builds the combined structure: one index per region, initialized empty,
/// receiving every record whose position the region's polygon contains,
/// keyed by the record's table position. A record contained by several
/// regions is indexed under each; one contained by none stays only in the
/// record table.
pub fn build_region_trees(regions: Vec<Polygon>, records: Vec<CsvRecord>) -> (r: RegionTrees)
    requires
        forall|j: int| 0 <= j < regions@.len() ==> (#[trigger] regions@[j]).wf(),
        forall|i: int| 0 <= i < records@.len() ==> (#[trigger] records@[i]).wf(),
    ensures
        r.regions@ == regions@,
        r.records@ == records@,
        r.trees_map@.len() == regions@.len(),
        forall|j: int| 0 <= j < regions@.len() ==> (#[trigger] r.trees_map@[j]).entries@
            == assigned_entries(regions@[j], records@),
        r.wf(),
{
    let mut trees_map: Vec<RegionIndex> = Vec::new();
    let nr = regions.len();
    let np = records.len();
    for j in 0..nr
        invariant
            nr == regions@.len(),
            np == records@.len(),
            forall|k: int| 0 <= k < regions@.len() ==> (#[trigger] regions@[k]).wf(),
            forall|i: int| 0 <= i < records@.len() ==> (#[trigger] records@[i]).wf(),
            trees_map@.len() == j,
            forall|k: int| 0 <= k < j ==> (#[trigger] trees_map@[k]).entries@
                == assigned_entries(regions@[k], records@),
    {
        let mut idx = RegionIndex::new();
        for i in 0..np
            invariant
                nr == regions@.len(),
                np == records@.len(),
                j < nr,
                forall|k: int| 0 <= k < regions@.len() ==> (#[trigger] regions@[k]).wf(),
                forall|k: int| 0 <= k < records@.len() ==> (#[trigger] records@[k]).wf(),
                idx.entries@ == assigned_entries(regions@[j as int], records@.take(i as int)),
        {
            let rec = records[i];
            proof {
                assert(records@.take(i as int + 1).drop_last() =~= records@.take(i as int));
                assert(records@.take(i as int + 1).last() == records@[i as int]);
            }
            if regions[j].contains(&rec.pos) {
                idx.add(&rec.xyz, i);
            }
        }
        proof {
            assert(records@.take(np as int) =~= records@);
        }
        trees_map.push(idx);
    }
    let r = RegionTrees { regions, trees_map, records };
    proof {
        assert forall|j: int| 0 <= j < r.trees_map@.len() implies (
        #[trigger] r.trees_map@[j]).coords_wf() && r.trees_map@[j].keys_bounded(
            r.records@.len() as int,
        ) by {
            assert(r.records@.len() == np as int);
            lemma_assigned_entries_wf(r.regions@[j], r.records@);
        }
    }
    r
}

/// The hydration of a key sequence: each key replaced by the corresponding
/// record's identifier and position.
pub open spec fn hydrate(records: Seq<CsvRecord>, keys: Seq<usize>) -> Seq<SearchResult> {
    keys.map_values(|k: usize| result_of(records[k as int]))
}

/// Hydrates the found keys into full results from the record table.
fn hydrate_exec(records: &Vec<CsvRecord>, keys: &Vec<usize>) -> (results: Vec<SearchResult>)
    requires
        forall|t: int| 0 <= t < keys@.len() ==> ((#[trigger] keys@[t]) as int) < records@.len(),
    ensures
        results@ == hydrate(records@, keys@),
{
    let mut results: Vec<SearchResult> = Vec::new();
    let n = keys.len();
    for t in 0..n
        invariant
            n == keys@.len(),
            forall|u: int| 0 <= u < keys@.len() ==> ((#[trigger] keys@[u]) as int) < records@.len(),
            results@ == hydrate(records@, keys@.take(t as int)),
    {
        let k = keys[t];
        let rec = records[k];
        results.push(
            SearchResult {
                id: rec.id,
                longitude_micro: rec.pos.lon_micro,
                latitude_micro: rec.pos.lat_micro,
            },
        );
        proof {
            assert(results@ =~= hydrate(records@, keys@.take(t as int + 1)));
        }
    }
    proof {
        assert(keys@.take(n as int) =~= keys@);
    }
    results
}

/// What a query returns: nothing when no region contains the query position
/// or the first containing region has no index entry; otherwise the
/// hydrated records of the first containing region's index that lie within
/// the radius's squared chord threshold of the query coordinate.
pub open spec fn spec_search(
    state: RegionTrees,
    request: SearchRequest,
    query_xyz: SphereCoord,
    radius_km: int,
) -> Seq<SearchResult> {
    match first_containing(state.regions@, request.spec_pos()) {
        None => Seq::empty(),
        Some(j) => if j < state.trees_map@.len() {
            hydrate(
                state.records@,
                within_spec(
                    state.trees_map@[j].entries@,
                    query_xyz,
                    spec_squared_threshold(radius_km),
                ),
            )
        } else {
            Seq::empty()
        },
    }
}

/// Empty-when-unmatched: a query whose coordinate lies outside every
/// region's polygon yields the empty result.
pub proof fn lemma_empty_when_unmatched(
    state: RegionTrees,
    request: SearchRequest,
    query_xyz: SphereCoord,
    radius_km: int,
)
    requires
        forall|j: int| 0 <= j < state.regions@.len() ==> !(#[trigger] state.regions@[j]).spec_contains(
            request.spec_pos(),
        ),
    ensures
        spec_search(state, request, query_xyz, radius_km) == Seq::<SearchResult>::empty(),
{
    lemma_first_containing(state.regions@, request.spec_pos(), 0);
    match first_containing(state.regions@, request.spec_pos()) {
        None => {},
        Some(m) => {
            assert(state.regions@[m].spec_contains(request.spec_pos()));
            assert(false);
        },
    }
}

/// The proximity query. Resolves the request's coordinate to the first
/// containing region in stored order and stops there: when that region has
/// no index entry, or no region contains the coordinate, the result is
/// empty (a valid result, not an error). Otherwise it radius-searches that
/// region's index with the query's unit-sphere coordinate (projected by the
/// caller from the same position) and hydrates the matches.
pub fn search(
    state: &RegionTrees,
    request: &SearchRequest,
    query_xyz: &SphereCoord,
    radius_km: u64,
) -> (results: Vec<SearchResult>)
    requires
        state.regions_wf(),
        state.records_wf(),
        state.indices_wf(),
        request.spec_pos().wf(),
        query_xyz.wf(),
        radius_km <= MAX_RADIUS_KM,
    ensures
        results@ == spec_search(*state, *request, *query_xyz, radius_km as int),
        first_containing(state.regions@, request.spec_pos()) is None ==> results@ == Seq::<
            SearchResult,
        >::empty(),
{
    let pos = request.pos();
    match resolve_region(&state.regions, &pos) {
        None => Vec::new(),
        Some(j) => {
            if j < state.trees_map.len() {
                let d = kilometres_to_unit_sphere_squared_euclidean(radius_km);
                let tree = &state.trees_map[j];
                let keys = tree.within(query_xyz, d);
                proof {
                    lemma_within_keys_bounded(
                        tree.entries@,
                        *query_xyz,
                        d as int,
                        state.records@.len() as int,
                    );
                }
                hydrate_exec(&state.records, &keys)
            } else {
                Vec::new()
            }
        },
    }
}

} // verus!
