use tripletgen::builder::{
    assemble_outcomes, build_pairs, build_triplet, dedup_by_item, rank_candidates,
    sort_by_distance_vec, CandidateOutcome,
};
use tripletgen::config::{Config, ConfigError};
use tripletgen::jsonl::{microdeg_string, pair_json_line, triplet_json_line, u64_string};
use tripletgen::models::{Coord, PairRecord, TripletLossTrainingLine};
use tripletgen::resolver::NearestMatch;
use tripletgen::sink::{Progress, Sink};
use tripletgen::coordinator::{total_units, work_units};
use tripletgen::tally::{tally_outcomes, Tally};

fn m(item: usize, distance: u64) -> NearestMatch {
    NearestMatch { item, distance }
}

fn c(lat: i64, lon: i64) -> Coord {
    Coord { lat, lon }
}

#[test]
fn sort_is_stable_on_equal_distances() {
    let input = vec![m(2, 50), m(1, 10), m(2, 5), m(3, 10), m(4, 70)];
    let sorted = sort_by_distance_vec(&input);
    assert_eq!(sorted, vec![m(2, 5), m(1, 10), m(3, 10), m(2, 50), m(4, 70)]);
}

#[test]
fn dedup_keeps_first_occurrence() {
    let input = vec![m(2, 5), m(1, 10), m(2, 50), m(1, 60), m(4, 70)];
    assert_eq!(dedup_by_item(&input), vec![m(2, 5), m(1, 10), m(4, 70)]);
}

#[test]
fn rank_sorts_dedups_and_takes_four() {
    let input = vec![m(2, 50), m(1, 10), m(2, 5), m(3, 10), m(4, 70), m(5, 80)];
    let ranked = rank_candidates(&input, 4);
    assert_eq!(ranked, vec![m(2, 5), m(1, 10), m(3, 10), m(4, 70)]);
    // Fewer distinct items than the cap: all of them, ranked.
    let ranked = rank_candidates(&vec![m(0, 9), m(0, 1)], 4);
    assert_eq!(ranked, vec![m(0, 1)]);
    assert_eq!(rank_candidates(&Vec::<NearestMatch>::new(), 4), Vec::<NearestMatch>::new());
}

#[test]
fn triplet_picks_min_and_max_durations() {
    let outcomes = vec![
        CandidateOutcome { item: 0, coord: c(1, 1), duration: Some(300) },
        CandidateOutcome { item: 1, coord: c(2, 2), duration: Some(100) },
        CandidateOutcome { item: 2, coord: c(3, 3), duration: None },
        CandidateOutcome { item: 3, coord: c(4, 4), duration: Some(300) },
    ];
    let t = build_triplet(c(0, 0), &outcomes).unwrap();
    assert_eq!(t.anchor, c(0, 0));
    assert_eq!(t.positive, c(2, 2));
    assert_eq!(t.positive_time, 100);
    // Of the two equally slow candidates the later one is the negative.
    assert_eq!(t.negative, c(4, 4));
    assert_eq!(t.negative_time, 300);
    assert!(t.positive_time <= t.negative_time);
    assert_ne!(t.positive, t.negative);
}

#[test]
fn triplet_single_success_coincides() {
    let outcomes = vec![
        CandidateOutcome { item: 0, coord: c(1, 1), duration: None },
        CandidateOutcome { item: 1, coord: c(2, 2), duration: Some(42) },
    ];
    let t = build_triplet(c(0, 0), &outcomes).unwrap();
    assert_eq!(t.positive, c(2, 2));
    assert_eq!(t.negative, c(2, 2));
    assert_eq!(t.positive_time, 42);
    assert_eq!(t.negative_time, 42);
}

#[test]
fn triplet_all_failures_yields_nothing() {
    let outcomes = vec![
        CandidateOutcome { item: 0, coord: c(1, 1), duration: None },
        CandidateOutcome { item: 1, coord: c(2, 2), duration: None },
    ];
    assert!(build_triplet(c(0, 0), &outcomes).is_none());
    assert!(build_triplet(c(0, 0), &Vec::<CandidateOutcome>::new()).is_none());
}

#[test]
fn triplet_equal_durations_still_distinct_candidates() {
    let outcomes = vec![
        CandidateOutcome { item: 0, coord: c(1, 1), duration: Some(5) },
        CandidateOutcome { item: 1, coord: c(2, 2), duration: Some(5) },
        CandidateOutcome { item: 2, coord: c(3, 3), duration: Some(5) },
    ];
    let t = build_triplet(c(0, 0), &outcomes).unwrap();
    assert_eq!(t.positive, c(1, 1));
    assert_eq!(t.negative, c(3, 3));
    assert_eq!(t.positive_time, t.negative_time);
    assert_ne!(t.positive, t.negative);
}

#[test]
fn pairs_keep_successes_in_order() {
    let outcomes = vec![
        CandidateOutcome { item: 0, coord: c(1, 1), duration: Some(7) },
        CandidateOutcome { item: 1, coord: c(2, 2), duration: None },
        CandidateOutcome { item: 2, coord: c(3, 3), duration: Some(9) },
    ];
    let pairs = build_pairs(c(0, 0), &outcomes);
    assert_eq!(
        pairs,
        vec![
            PairRecord { source: c(1, 1), destination: c(0, 0), time: 7 },
            PairRecord { source: c(3, 3), destination: c(0, 0), time: 9 },
        ]
    );
}

#[test]
fn unit_pipeline_is_idempotent() {
    let matches = vec![m(1, 30), m(0, 10), m(1, 5), m(2, 40)];
    let coords = vec![c(1, 1), c(2, 2), c(3, 3)];
    let durations = vec![Some(20u64), Some(10), None];
    let run = || {
        let ranked = rank_candidates(&matches, 4);
        let outcomes = assemble_outcomes(&ranked, &coords, &durations);
        build_triplet(c(0, 0), &outcomes)
    };
    assert_eq!(run(), run());
    assert!(run().is_some());
}

#[test]
fn tally_accounts_for_every_outcome() {
    let outcomes = vec![true, false, true, true, false, false, false];
    let t = tally_outcomes(&outcomes);
    assert_eq!(t.success_count, 3);
    assert_eq!(t.error_count, 4);
    assert_eq!(t.success_count + t.error_count, outcomes.len() as u64);
    let mut t = Tally::new();
    t.record(true);
    t.record(false);
    assert_eq!((t.success_count, t.error_count), (1, 1));
}

#[test]
fn total_units_multiplies_and_handles_zero() {
    assert_eq!(total_units(2, 1, 4), Some(8));
    assert_eq!(total_units(18, 1000, 20), Some(360_000));
    assert_eq!(total_units(0, 5, 5), Some(0));
}

#[test]
fn work_units_enumerate_the_cross_product_ring_major() {
    let units = work_units(3, 2);
    assert_eq!(units, vec![(0, 0), (0, 1), (1, 0), (1, 1), (2, 0), (2, 1)]);
    assert_eq!(work_units(0, 5), Vec::<(usize, usize)>::new());
    assert_eq!(work_units(5, 0), Vec::<(usize, usize)>::new());
}

#[test]
fn sink_releases_full_batches_and_drains_the_rest() {
    let mut sink = Sink::new(3);
    let mut released: Vec<String> = Vec::new();
    for i in 0..7 {
        let line = format!("line-{}", i);
        match sink.accept(line) {
            Some(batch) => {
                assert_eq!(batch.len(), 3);
                released.extend(batch);
            }
            None => {}
        }
    }
    assert_eq!(released.len(), 6);
    let rest = sink.drain();
    assert_eq!(rest, vec!["line-6".to_string()]);
    released.extend(rest);
    let expected: Vec<String> = (0..7).map(|i| format!("line-{}", i)).collect();
    assert_eq!(released, expected);
}

#[test]
fn progress_reports_every_thousand() {
    let mut p = Progress::new();
    for i in 1..=2500u64 {
        let report = p.record_written();
        if i % 1000 == 0 {
            assert_eq!(report, Some(1000));
        } else {
            assert_eq!(report, None);
        }
    }
    assert_eq!(p.count, 2500);
    assert_eq!(p.previous_count, 2000);
}

#[test]
fn numbers_render_as_decimal_text() {
    assert_eq!(u64_string(0), "0");
    assert_eq!(u64_string(907), "907");
    assert_eq!(u64_string(1_000_000), "1000000");
    assert_eq!(microdeg_string(48_856_600), "48.856600");
    assert_eq!(microdeg_string(-1_500_000), "-1.500000");
    assert_eq!(microdeg_string(0), "0.000000");
    assert_eq!(microdeg_string(1), "0.000001");
    assert_eq!(microdeg_string(-42), "-0.000042");
}

#[test]
fn records_serialize_to_json_lines() {
    let t = TripletLossTrainingLine {
        anchor: c(1_500_000, -2_000_000),
        positive: c(0, 250_000),
        negative: c(-48_856_600, 2_352_200),
        positive_time: 100,
        negative_time: 300,
    };
    assert_eq!(
        triplet_json_line(&t),
        "{\"anchor\":{\"lat\":1.500000,\"lon\":-2.000000},\"positive\":{\"lat\":0.000000,\"lon\":0.250000},\"negative\":{\"lat\":-48.856600,\"lon\":2.352200},\"positive_time\":100,\"negative_time\":300}\n"
    );
    let p = PairRecord { source: c(1_000_000, 0), destination: c(0, 0), time: 77 };
    assert_eq!(
        pair_json_line(&p),
        "{\"source\":{\"lat\":1.000000,\"lon\":0.000000},\"destination\":{\"lat\":0.000000,\"lon\":0.000000},\"time\":77}\n"
    );
}

#[test]
fn json_lines_are_valid_json_with_the_right_fields() {
    // Cross-check the serializer against a real JSON parser.
    let t = TripletLossTrainingLine {
        anchor: c(48_856_600, 2_352_200),
        positive: c(-1_500_000, 250_000),
        negative: c(0, -42),
        positive_time: 120,
        negative_time: 480,
    };
    let line = triplet_json_line(&t);
    assert!(line.ends_with('\n'));
    let v: serde_json::Value = serde_json::from_str(line.trim_end()).unwrap();
    assert_eq!(v["anchor"]["lat"].as_f64().unwrap(), 48.8566);
    assert_eq!(v["anchor"]["lon"].as_f64().unwrap(), 2.3522);
    assert_eq!(v["positive"]["lat"].as_f64().unwrap(), -1.5);
    assert_eq!(v["positive"]["lon"].as_f64().unwrap(), 0.25);
    assert_eq!(v["negative"]["lat"].as_f64().unwrap(), 0.0);
    assert_eq!(v["negative"]["lon"].as_f64().unwrap(), -0.000042);
    assert_eq!(v["positive_time"].as_u64().unwrap(), 120);
    assert_eq!(v["negative_time"].as_u64().unwrap(), 480);
    let p = PairRecord { source: c(1_000_000, 0), destination: c(0, 500_000), time: 7 };
    let v: serde_json::Value = serde_json::from_str(pair_json_line(&p).trim_end()).unwrap();
    assert_eq!(v["source"]["lat"].as_f64().unwrap(), 1.0);
    assert_eq!(v["destination"]["lon"].as_f64().unwrap(), 0.5);
    assert_eq!(v["time"].as_u64().unwrap(), 7);
}

#[test]
fn config_requires_every_key() {
    let some = |s: &str| Some(s.to_string());
    let conf = Config::from_values(some("out"), some("in"), some("mld"), some("ch")).unwrap();
    assert_eq!(conf.output_file, "out");
    assert_eq!(conf.input_address_file, "in");
    assert_eq!(conf.osrm_file_mld, "mld");
    assert_eq!(conf.osrm_file_ch, "ch");
    assert!(matches!(
        Config::from_values(None, some("in"), some("mld"), some("ch")),
        Err(ConfigError::MissingOutputFile)
    ));
    assert!(matches!(
        Config::from_values(some("out"), None, some("mld"), some("ch")),
        Err(ConfigError::MissingInputAddressFile)
    ));
    assert!(matches!(
        Config::from_values(some("out"), some("in"), None, some("ch")),
        Err(ConfigError::MissingOsrmFileMld)
    ));
    assert!(matches!(
        Config::from_values(some("out"), some("in"), some("mld"), None),
        Err(ConfigError::MissingOsrmFileCh)
    ));
}
