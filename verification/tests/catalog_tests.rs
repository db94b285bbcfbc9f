use tripletgen::data_loader::{catalog_from_rows, create_all_rings, load_catalog, CatalogError};
use tripletgen::decimal::parse_microdeg;
use tripletgen::models::Coord;

fn bytes(s: &str) -> Vec<u8> {
    s.as_bytes().to_vec()
}

fn row(cells: &[&str]) -> Vec<Vec<u8>> {
    cells.iter().map(|c| bytes(c)).collect()
}

#[test]
fn parse_plain_decimal() {
    assert_eq!(parse_microdeg(&bytes("48.8566")), Some(48_856_600));
    assert_eq!(parse_microdeg(&bytes("2.3522")), Some(2_352_200));
    assert_eq!(parse_microdeg(&bytes("1")), Some(1_000_000));
    assert_eq!(parse_microdeg(&bytes("0")), Some(0));
}

#[test]
fn parse_signs() {
    assert_eq!(parse_microdeg(&bytes("-1.5")), Some(-1_500_000));
    assert_eq!(parse_microdeg(&bytes("+0.000001")), Some(1));
    assert_eq!(parse_microdeg(&bytes("-0.5")), Some(-500_000));
    assert_eq!(parse_microdeg(&bytes("-0")), Some(0));
}

#[test]
fn parse_trailing_dot_and_truncation() {
    assert_eq!(parse_microdeg(&bytes("5.")), Some(5_000_000));
    // Fraction digits beyond the sixth are truncated.
    assert_eq!(parse_microdeg(&bytes("0.1234567")), Some(123_456));
    assert_eq!(parse_microdeg(&bytes("0.12345678901")), Some(123_456));
}

#[test]
fn parse_rejects_garbage() {
    assert_eq!(parse_microdeg(&bytes("")), None);
    assert_eq!(parse_microdeg(&bytes("abc")), None);
    assert_eq!(parse_microdeg(&bytes("1e5")), None);
    assert_eq!(parse_microdeg(&bytes(".5")), None);
    assert_eq!(parse_microdeg(&bytes("+")), None);
    assert_eq!(parse_microdeg(&bytes("1.2.3")), None);
    assert_eq!(parse_microdeg(&bytes("1,5")), None);
    // More than twelve integer digits is out of range.
    assert_eq!(parse_microdeg(&bytes("9999999999999")), None);
    assert_eq!(parse_microdeg(&bytes("999999999999")), Some(999_999_999_999_000_000));
}

#[test]
fn rings_are_fixed_and_descending() {
    let rings = create_all_rings();
    assert_eq!(
        rings,
        vec![300, 250, 200, 150, 100, 90, 80, 70, 60, 50, 40, 30, 20, 10, 5, 3, 2, 1]
    );
    for w in rings.windows(2) {
        assert!(w[0] > w[1]);
    }
}

#[test]
fn catalog_keeps_good_rows_in_order() {
    let header = row(&["id", "lat", "lon"]);
    let rows = vec![
        row(&["1", "48.85", "2.35"]),
        row(&["2", "oops", "2.35"]),      // bad latitude: skipped
        row(&["3", "1.0", "2.0"]),
        row(&["4", "1.0"]),               // short row: skipped
        row(&["5", "-1.5", "+0.25"]),
    ];
    let got = catalog_from_rows(&header, &rows).unwrap();
    assert_eq!(
        got,
        vec![
            Coord { lat: 48_850_000, lon: 2_350_000 },
            Coord { lat: 1_000_000, lon: 2_000_000 },
            Coord { lat: -1_500_000, lon: 250_000 },
        ]
    );
}

#[test]
fn catalog_missing_columns_are_fatal() {
    let rows = vec![row(&["1.0", "2.0"])];
    assert_eq!(
        catalog_from_rows(&row(&["longitude", "lon"]), &rows),
        Err(CatalogError::MissingLatColumn)
    );
    assert_eq!(
        catalog_from_rows(&row(&["lat", "longitude"]), &rows),
        Err(CatalogError::MissingLonColumn)
    );
}

#[test]
fn catalog_duplicate_column_last_wins() {
    let header = row(&["lat", "lat", "lon"]);
    let rows = vec![row(&["1.0", "2.0", "3.0"])];
    let got = catalog_from_rows(&header, &rows).unwrap();
    assert_eq!(got, vec![Coord { lat: 2_000_000, lon: 3_000_000 }]);
}

#[test]
fn load_catalog_shuffles_but_keeps_contents() {
    let header = row(&["lat", "lon"]);
    let rows: Vec<Vec<Vec<u8>>> = (0..50)
        .map(|i| row(&[format!("{}.5", i).as_str(), format!("{}.25", i).as_str()]))
        .collect();
    let plain = catalog_from_rows(&header, &rows).unwrap();
    let shuffled = load_catalog(&header, &rows).unwrap();
    let mut a = plain.clone();
    let mut b = shuffled.clone();
    a.sort_by_key(|c| (c.lat, c.lon));
    b.sort_by_key(|c| (c.lat, c.lon));
    assert_eq!(a, b);
    assert_eq!(shuffled.len(), 50);
}

#[test]
fn load_catalog_reports_missing_columns_too() {
    let rows = vec![row(&["1.0", "2.0"])];
    assert_eq!(
        load_catalog(&row(&["a", "b"]), &rows),
        Err(CatalogError::MissingLatColumn)
    );
}
