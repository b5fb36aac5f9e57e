use region_search::coords::{
    kilometres_to_unit_sphere_squared_euclidean, squared_chord, GeoPos, SphereCoord,
};
use region_search::geometry::{match_geometry, GeometryValue};
use region_search::index::{build_region_trees, search, IndexEntry, RegionIndex, RegionTrees};
use region_search::polygon::Polygon;
use region_search::records::{CsvRecord, SearchRequest};

fn micro(deg: f64) -> i64 {
    (deg * 1_000_000.0).round() as i64
}

fn project(lat_deg: f64, lon_deg: f64) -> SphereCoord {
    let lat = lat_deg.to_radians();
    let lon = lon_deg.to_radians();
    let s = 1_000_000_000.0;
    SphereCoord {
        x: (lat.cos() * lon.cos() * s).round() as i64,
        y: (lat.cos() * lon.sin() * s).round() as i64,
        z: (lat.sin() * s).round() as i64,
    }
}

fn pos(lat_deg: f64, lon_deg: f64) -> GeoPos {
    GeoPos { lon_micro: micro(lon_deg), lat_micro: micro(lat_deg) }
}

fn square(lon0: f64, lat0: f64, lon1: f64, lat1: f64) -> Polygon {
    Polygon {
        ring: vec![
            pos(lat0, lon0),
            pos(lat0, lon1),
            pos(lat1, lon1),
            pos(lat1, lon0),
        ],
    }
}

fn record(id: usize, lat_deg: f64, lon_deg: f64) -> CsvRecord {
    CsvRecord { id, pos: pos(lat_deg, lon_deg), xyz: project(lat_deg, lon_deg) }
}

fn run_query(state: &RegionTrees, lat_deg: f64, lon_deg: f64, radius_km: u64) -> Vec<usize> {
    let request = SearchRequest {
        longitude_micro: micro(lon_deg),
        latitude_micro: micro(lat_deg),
    };
    let query_xyz = project(lat_deg, lon_deg);
    search(state, &request, &query_xyz, radius_km)
        .iter()
        .map(|r| r.id)
        .collect()
}

#[test]
fn projection_is_near_unit() {
    let samples = [
        (0.0, 0.0),
        (45.0, 45.0),
        (-33.9, 151.2),
        (89.9, -179.9),
        (-90.0, 0.0),
        (48.85, 2.35),
    ];
    for (lat, lon) in samples {
        let c = project(lat, lon);
        assert!(c.check_near_unit(), "projection of ({lat}, {lon}) strayed from the unit sphere");
    }
}

#[test]
fn near_unit_rejects_bad_coordinates() {
    assert!(!SphereCoord { x: 0, y: 0, z: 0 }.check_near_unit());
    assert!(!SphereCoord { x: 3_000_000_000, y: 0, z: 0 }.check_near_unit());
    assert!(!SphereCoord { x: 1_000_000_000, y: 1_000_000_000, z: 0 }.check_near_unit());
    assert!(SphereCoord { x: 1_000_000_000, y: 0, z: 0 }.check_near_unit());
}

#[test]
fn squared_chord_exact_value() {
    let a = SphereCoord { x: 1, y: 2, z: 3 };
    let b = SphereCoord { x: 4, y: 6, z: 3 };
    assert_eq!(squared_chord(&a, &b), 25);
    assert_eq!(squared_chord(&a, &a), 0);
}

#[test]
fn threshold_exact_value() {
    // floor(40 * 10^9 / 6371) = 6_278_449, squared.
    assert_eq!(kilometres_to_unit_sphere_squared_euclidean(40), 39_418_921_845_601);
    assert_eq!(kilometres_to_unit_sphere_squared_euclidean(0), 0);
}

#[test]
fn threshold_strictly_monotone() {
    let radii = [0u64, 1, 2, 10, 40, 100, 1000, 40_000];
    let mut last = None;
    for r in radii {
        let t = kilometres_to_unit_sphere_squared_euclidean(r);
        if let Some(prev) = last {
            assert!(prev < t, "threshold not strictly increasing at {r} km");
        }
        last = Some(t);
    }
}

#[test]
fn polygon_containment() {
    let sq = square(10.0, 20.0, 11.0, 21.0);
    assert!(sq.contains(&pos(20.5, 10.5)));
    assert!(sq.contains(&pos(20.01, 10.99)));
    assert!(!sq.contains(&pos(21.5, 10.5)));
    assert!(!sq.contains(&pos(20.5, 11.5)));
    assert!(!sq.contains(&pos(-20.5, -10.5)));
}

#[test]
fn degenerate_polygons_contain_nothing() {
    let empty = Polygon { ring: vec![] };
    assert!(!empty.contains(&pos(0.0, 0.0)));
    let line = Polygon { ring: vec![pos(0.0, 0.0), pos(1.0, 1.0)] };
    assert!(!line.contains(&pos(0.2, 0.2)));
}

#[test]
fn record_reports_its_coordinate() {
    let r = record(7, 48.85, 2.35);
    assert_eq!(r.as_xyz(), project(48.85, 2.35));
}

#[test]
fn build_assigns_contained_records() {
    // Two disjoint squares; one record in each, one in neither.
    let r1 = square(0.0, 0.0, 2.0, 2.0);
    let r2 = square(5.0, 5.0, 7.0, 7.0);
    let records = vec![
        record(100, 1.0, 1.0),
        record(200, 6.0, 6.0),
        record(300, 40.0, 40.0),
    ];
    let built = build_region_trees(vec![r1, r2], records.clone());
    assert_eq!(built.trees_map.len(), 2);
    // Containment completeness: each contained record appears under its
    // table position, carrying its own projected coordinate.
    assert_eq!(built.trees_map[0].entries.len(), 1);
    assert_eq!(built.trees_map[0].entries[0], IndexEntry { coord: records[0].xyz, key: 0 });
    assert_eq!(built.trees_map[1].entries.len(), 1);
    assert_eq!(built.trees_map[1].entries[0], IndexEntry { coord: records[1].xyz, key: 1 });
    // The unmatched record stays in the table.
    assert_eq!(built.records.len(), 3);
    assert_eq!(built.records[2].id, 300);
}

#[test]
fn build_indexes_overlapping_regions_twice() {
    let r1 = square(0.0, 0.0, 2.0, 2.0);
    let r2 = square(1.0, 0.0, 3.0, 2.0);
    let records = vec![record(1, 1.0, 1.5)];
    let built = build_region_trees(vec![r1, r2], records);
    assert_eq!(built.trees_map[0].entries.len(), 1);
    assert_eq!(built.trees_map[1].entries.len(), 1);
}

#[test]
fn referential_integrity_after_build() {
    let regions = vec![square(0.0, 0.0, 2.0, 2.0), square(1.0, 1.0, 3.0, 3.0)];
    let records: Vec<CsvRecord> =
        (0..20).map(|i| record(1000 + i, 0.2 * i as f64, 0.3 * i as f64)).collect();
    let built = build_region_trees(regions, records);
    for tree in &built.trees_map {
        for entry in &tree.entries {
            assert!(entry.key < built.records.len());
            assert_eq!(entry.coord, built.records[entry.key].xyz);
        }
    }
}

#[test]
fn within_includes_boundary_exactly() {
    let mut index = RegionIndex::new();
    let origin = SphereCoord { x: 0, y: 0, z: 0 };
    index.add(&SphereCoord { x: 1000, y: 0, z: 0 }, 4);
    // Squared distance is exactly 1_000_000: included at the threshold,
    // excluded just below it.
    assert_eq!(index.within(&origin, 1_000_000), vec![4]);
    assert_eq!(index.within(&origin, 999_999), Vec::<usize>::new());
}

#[test]
fn radius_search_selects_by_distance() {
    // Points due north of the query at known great-circle distances
    // (1 degree of latitude is about 111.19 km).
    let region = square(9.0, -3.0, 11.0, 3.0);
    let records = vec![
        record(5, 0.044966, 10.0),  // ~5 km
        record(30, 0.269794, 10.0), // ~30 km
        record(50, 0.449656, 10.0), // ~50 km
        record(200, 1.798625, 10.0), // ~200 km
    ];
    let built = build_region_trees(vec![region], records);
    let found = run_query(&built, 0.0, 10.0, 40);
    assert_eq!(found, vec![5, 30]);
    let found_wide = run_query(&built, 0.0, 10.0, 250);
    assert_eq!(found_wide, vec![5, 30, 50, 200]);
    let found_narrow = run_query(&built, 0.0, 10.0, 1);
    assert_eq!(found_narrow, Vec::<usize>::new());
}

#[test]
fn empty_when_unmatched() {
    let built = build_region_trees(
        vec![square(0.0, 0.0, 2.0, 2.0), square(5.0, 5.0, 7.0, 7.0)],
        vec![record(1, 1.0, 1.0)],
    );
    // The query coordinate lies outside every region's polygon.
    assert_eq!(run_query(&built, 10.0, 10.0, 40), Vec::<usize>::new());
}

#[test]
fn query_in_region_with_no_points_is_empty() {
    let built = build_region_trees(
        vec![square(0.0, 0.0, 2.0, 2.0)],
        vec![record(1, 10.0, 10.0)],
    );
    assert_eq!(run_query(&built, 1.0, 1.0, 40), Vec::<usize>::new());
}

#[test]
fn missing_index_entry_yields_empty() {
    // A hand-built structure whose matched region has no index entry: the
    // query stops there and returns nothing.
    let state = RegionTrees {
        regions: vec![square(0.0, 0.0, 2.0, 2.0)],
        trees_map: vec![],
        records: vec![record(1, 1.0, 1.0)],
    };
    assert_eq!(run_query(&state, 1.0, 1.0, 40), Vec::<usize>::new());
}

#[test]
fn scenario_nearby_point_in_own_region() {
    // Two disjoint squares; the query is inside the first, 5 km from its
    // one point, and far from the second region's point.
    let r1 = square(9.0, -1.0, 11.0, 1.0);
    let r2 = square(20.0, -1.0, 22.0, 1.0);
    let built = build_region_trees(
        vec![r1, r2],
        vec![record(1, 0.044966, 10.0), record(2, 0.0, 21.0)],
    );
    assert_eq!(run_query(&built, 0.0, 10.0, 40), vec![1]);
    // The same query placed outside both regions finds nothing.
    assert_eq!(run_query(&built, 0.0, 15.0, 40), Vec::<usize>::new());
}

#[test]
fn scenario_first_match_tie_break() {
    // The regions overlap at the query; each point lies in exactly one
    // region and both are within 40 km of the query, but only the first
    // region in stored order is searched.
    let r1 = square(0.0, 0.0, 2.0, 1.0);
    let r2 = square(1.8, 0.0, 3.8, 1.0);
    let p1 = record(1, 0.5, 1.7); // inside r1 only, ~22 km west of the query
    let p2 = record(2, 0.5, 2.1); // inside r2 only, ~22 km east of the query
    let built = build_region_trees(vec![r1, r2], vec![p1, p2]);
    assert_eq!(built.trees_map[0].entries.len(), 1);
    assert_eq!(built.trees_map[1].entries.len(), 1);
    assert_eq!(run_query(&built, 0.5, 1.9, 40), vec![1]);
}

#[test]
fn build_with_no_regions_or_records() {
    let built = build_region_trees(vec![], vec![]);
    assert_eq!(built.trees_map.len(), 0);
    assert_eq!(run_query(&built, 0.0, 0.0, 40), Vec::<usize>::new());

    let built2 = build_region_trees(vec![square(0.0, 0.0, 1.0, 1.0)], vec![]);
    assert_eq!(built2.trees_map.len(), 1);
    assert_eq!(built2.trees_map[0].entries.len(), 0);
    assert_eq!(run_query(&built2, 0.5, 0.5, 40), Vec::<usize>::new());
}

#[test]
fn search_hydrates_full_records() {
    let built = build_region_trees(
        vec![square(9.0, -1.0, 11.0, 1.0)],
        vec![record(42, 0.044966, 10.0)],
    );
    let request = SearchRequest { longitude_micro: micro(10.0), latitude_micro: micro(0.0) };
    let found = search(&built, &request, &project(0.0, 10.0), 40);
    assert_eq!(found.len(), 1);
    assert_eq!(found[0].id, 42);
    assert_eq!(found[0].longitude_micro, micro(10.0));
    assert_eq!(found[0].latitude_micro, micro(0.044966));
}

#[test]
fn flatten_geometry_values() {
    let a = square(0.0, 0.0, 1.0, 1.0);
    let b = square(2.0, 0.0, 3.0, 1.0);
    let c = square(4.0, 0.0, 5.0, 1.0);
    let nested = GeometryValue::GeometryCollection(vec![
        GeometryValue::Polygon(a.clone()),
        GeometryValue::GeometryCollection(vec![
            GeometryValue::MultiPolygon(vec![b.clone(), c.clone()]),
            GeometryValue::Other,
        ]),
    ]);
    let mut regions: Vec<Polygon> = Vec::new();
    let discarded = match_geometry(nested, &mut regions);
    assert!(discarded);
    assert_eq!(regions.len(), 3);
    assert_eq!(regions[0].ring, a.ring);
    assert_eq!(regions[1].ring, b.ring);
    assert_eq!(regions[2].ring, c.ring);

    let mut more: Vec<Polygon> = Vec::new();
    let none_discarded = match_geometry(GeometryValue::MultiPolygon(vec![a.clone()]), &mut more);
    assert!(!none_discarded);
    assert_eq!(more.len(), 1);
}
