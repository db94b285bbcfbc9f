use tripletgen::builder::{build_pairs, CandidateOutcome};
use tripletgen::models::Coord;
use tripletgen::resolver::{AddressCatalog, EmbeddedPoint};
use tripletgen::sampler::ring_bearings;
use tripletgen::coordinator::total_units;
use tripletgen::tally::tally_outcomes;

const EARTH_RADIUS_KM: f64 = 6371.0;

/// Project a coordinate onto the unit sphere and scale to fixed point.
fn embed(lat_deg: f64, lon_deg: f64) -> EmbeddedPoint {
    let lat = lat_deg.to_radians();
    let lon = lon_deg.to_radians();
    EmbeddedPoint {
        x: (lat.cos() * lon.cos() * 1_000_000.0).round() as i64,
        y: (lat.cos() * lon.sin() * 1_000_000.0).round() as i64,
        z: (lat.sin() * 1_000_000.0).round() as i64,
    }
}

/// Spherical destination point: from a center, travel `radius_km` along the
/// given bearing.
fn destination(lat_deg: f64, lon_deg: f64, radius_km: f64, bearing_rad: f64) -> (f64, f64) {
    let lat = lat_deg.to_radians();
    let lon = lon_deg.to_radians();
    let ang = radius_km / EARTH_RADIUS_KM;
    let dest_lat = (lat.sin() * ang.cos() + lat.cos() * ang.sin() * bearing_rad.cos()).asin();
    let dest_lon = lon
        + (bearing_rad.sin() * ang.sin() * lat.cos())
            .atan2(ang.cos() - lat.sin() * dest_lat.sin());
    (dest_lat.to_degrees(), dest_lon.to_degrees())
}

fn haversine_km(a: (f64, f64), b: (f64, f64)) -> f64 {
    let (la1, lo1) = (a.0.to_radians(), a.1.to_radians());
    let (la2, lo2) = (b.0.to_radians(), b.1.to_radians());
    let dlat = la2 - la1;
    let dlon = lo2 - lo1;
    let h = (dlat / 2.0).sin().powi(2) + la1.cos() * la2.cos() * (dlon / 2.0).sin().powi(2);
    2.0 * EARTH_RADIUS_KM * h.sqrt().asin()
}

fn deg(microdeg: i64) -> f64 {
    microdeg as f64 / 1_000_000.0
}

/// The deterministic route-oracle stub: duration is great-circle distance
/// times a constant speed factor, in whole milliseconds.
fn stub_duration(source: Coord, destination: Coord) -> u64 {
    let d = haversine_km((deg(source.lat), deg(source.lon)), (deg(destination.lat), deg(destination.lon)));
    (d * 36.0).round() as u64
}

#[test]
fn resolving_a_catalog_entry_hits_it_at_zero_distance() {
    // A small synthetic catalog of well-separated points.
    let coords: Vec<Coord> = (0..8)
        .map(|i| Coord { lat: i * 10_000_000, lon: i * 5_000_000 })
        .collect();
    let embedded: Vec<EmbeddedPoint> = coords
        .iter()
        .map(|c| embed(deg(c.lat), deg(c.lon)))
        .collect();
    let catalog = AddressCatalog::new(coords, embedded.clone()).unwrap();
    for (k, q) in embedded.iter().enumerate() {
        let m = catalog.resolve(*q).unwrap();
        assert_eq!(m.distance, 0);
        assert_eq!(m.item, k);
    }
}

#[test]
fn resolve_prefers_closer_entry_and_first_on_tie() {
    let coords = vec![
        Coord { lat: 0, lon: 0 },
        Coord { lat: 0, lon: 0 },
        Coord { lat: 0, lon: 20_000_000 },
    ];
    let embedded = vec![
        EmbeddedPoint { x: 1_000_000, y: 0, z: 0 },
        EmbeddedPoint { x: 1_000_000, y: 0, z: 0 },
        EmbeddedPoint { x: 900_000, y: 400_000, z: 0 },
    ];
    let catalog = AddressCatalog::new(coords, embedded).unwrap();
    // Equidistant duplicates: the earliest entry wins.
    let m = catalog.resolve(EmbeddedPoint { x: 1_000_000, y: 1, z: 0 }).unwrap();
    assert_eq!(m.item, 0);
    // A query next to the third entry resolves to it.
    let m = catalog.resolve(EmbeddedPoint { x: 901_000, y: 399_000, z: 0 }).unwrap();
    assert_eq!(m.item, 2);
}

#[test]
fn resolve_on_empty_catalog_returns_nothing() {
    let catalog = AddressCatalog::new(Vec::new(), Vec::new()).unwrap();
    assert!(catalog.resolve(EmbeddedPoint { x: 0, y: 0, z: 0 }).is_none());
}

#[test]
fn catalog_refuses_mismatched_or_out_of_range_input() {
    assert!(AddressCatalog::new(vec![Coord { lat: 0, lon: 0 }], Vec::new()).is_none());
    assert!(AddressCatalog::new(
        vec![Coord { lat: 0, lon: 0 }],
        vec![EmbeddedPoint { x: 3_000_000, y: 0, z: 0 }],
    )
    .is_none());
}

#[test]
fn bearings_are_evenly_spaced_from_the_phase() {
    assert_eq!(ring_bearings(4, 0), vec![0, 90_000_000, 180_000_000, 270_000_000]);
    assert_eq!(
        ring_bearings(4, 45_000_000),
        vec![45_000_000, 135_000_000, 225_000_000, 315_000_000]
    );
    let b = ring_bearings(20, 0);
    assert_eq!(b.len(), 20);
    for (i, w) in b.windows(2).enumerate() {
        assert_eq!(w[1] - w[0], 18_000_000, "gap {} wrong", i);
    }
}

#[test]
fn bearings_with_fixed_phase_are_deterministic() {
    assert_eq!(ring_bearings(7, 123_456), ring_bearings(7, 123_456));
    // A different phase only rotates the ring: gaps stay the same.
    let a = ring_bearings(7, 0);
    let b = ring_bearings(7, 77_000_000);
    for i in 0..6 {
        let ga = a[i + 1] - a[i];
        let gb = (b[i + 1] + 360_000_000 - b[i]) % 360_000_000;
        assert_eq!(ga, gb);
    }
}

#[test]
fn ring_samples_lie_on_the_ring() {
    // Feeding the planned bearings into the destination formula puts every
    // sample at the ring radius, within float tolerance.
    for &(lat, lon) in &[(48.85, 2.35), (0.0, 0.0), (-33.9, 151.2)] {
        for &count in &[1usize, 4, 20] {
            for b in ring_bearings(count, 0) {
                let brad = (b as f64 / 1_000_000.0).to_radians();
                let p = destination(lat, lon, 100.0, brad);
                let d = haversine_km((lat, lon), p);
                assert!((d - 100.0).abs() < 0.1, "distance {} off the ring", d);
            }
        }
    }
}

#[test]
fn end_to_end_pair_scenario_counts_and_times() {
    // Catalog: (0.0, 0.0) and (0.0, 1.0); one ring of 100 km; 4 samples per
    // anchor; the oracle stub always answers with distance times a constant
    // speed factor.
    let coords = vec![
        Coord { lat: 0, lon: 0 },
        Coord { lat: 0, lon: 1_000_000 },
    ];
    let embedded: Vec<EmbeddedPoint> = coords
        .iter()
        .map(|c| embed(deg(c.lat), deg(c.lon)))
        .collect();
    let catalog = AddressCatalog::new(coords.clone(), embedded).unwrap();

    let mut attempts: Vec<bool> = Vec::new();
    let mut all_records = Vec::new();
    for anchor in &coords {
        let mut outcomes: Vec<CandidateOutcome> = Vec::new();
        for bearing in ring_bearings(4, 0) {
            let brad = (bearing as f64 / 1_000_000.0).to_radians();
            let (slat, slon) = destination(deg(anchor.lat), deg(anchor.lon), 100.0, brad);
            let m = catalog.resolve(embed(slat, slon)).unwrap();
            let resolved = coords[m.item];
            let duration = stub_duration(resolved, *anchor);
            attempts.push(true);
            outcomes.push(CandidateOutcome { item: m.item, coord: resolved, duration: Some(duration) });
        }
        let records = build_pairs(*anchor, &outcomes);
        assert_eq!(records.len(), 4);
        for r in &records {
            assert_eq!(r.destination, *anchor);
            assert_eq!(r.time, stub_duration(r.source, r.destination));
        }
        all_records.extend(records);
    }

    // 2 addresses x 1 ring x 4 samples: every attempt is accounted for.
    assert_eq!(total_units(2, 1, 4), Some(8));
    assert_eq!(attempts.len(), 8);
    let tally = tally_outcomes(&attempts);
    assert_eq!(tally.success_count + tally.error_count, 8);
    assert_eq!(all_records.len(), 8);
}
