use vstd::prelude::*;
use crate::decimal::{decimal_microdeg, parse_microdeg, valid_decimal};
use crate::models::Coord;
use rand::seq::SliceRandom;

verus! {

/// The fixed set of ring radii, in kilometers, largest first.
///
/// Samples are cast at each of these distances around every catalog address.
pub fn create_all_rings() -> (rings: Vec<u64>)
    ensures
        rings@ == seq![
            300u64, 250, 200, 150, 100, 90, 80, 70, 60, 50, 40, 30, 20, 10, 5, 3, 2, 1,
        ],
{
    let rings: Vec<u64> = vec![300, 250, 200, 150, 100, 90, 80, 70, 60, 50, 40, 30, 20, 10, 5, 3, 2, 1];
    proof {
        assert(rings@ =~= seq![
            300u64, 250, 200, 150, 100, 90, 80, 70, 60, 50, 40, 30, 20, 10, 5, 3, 2, 1,
        ]);
    }
    rings
}

/// Why a catalog could not be built from its source rows.
#[derive(Clone, Copy, PartialEq, Eq, Structural, Debug)]
pub enum CatalogError {
    /// The header row has no `lat` column.
    MissingLatColumn,
    /// The header row has no `lon` column.
    MissingLonColumn,
}

/// True when `v` holds exactly the three bytes `a`, `b`, `c`.
fn is_word3(v: &Vec<u8>, a: u8, b: u8, c: u8) -> (r: bool)
    ensures
        r == (v@ == seq![a, b, c]),
{
    if v.len() == 3 && v[0] == a && v[1] == b && v[2] == c {
        proof {
            assert(v@ =~= seq![a, b, c]);
        }
        true
    } else {
        proof {
            if v@ == seq![a, b, c] {
                assert(v@.len() == 3);
                assert(v@[0] == a && v@[1] == b && v@[2] == c);
            }
        }
        false
    }
}

/// The largest index whose header cell equals `w`, or -1 when none does.
pub open spec fn last_index_of(h: Seq<Seq<u8>>, w: Seq<u8>) -> int
    decreases h.len(),
{
    if h.len() == 0 {
        -1
    } else if h.last() == w {
        h.len() - 1
    } else {
        last_index_of(h.drop_last(), w)
    }
}

/// Find the column whose name is the three bytes `a b c`, taking the last
/// occurrence when the name repeats.
fn find_column(header: &Vec<Vec<u8>>, a: u8, b: u8, c: u8) -> (r: Option<usize>)
    ensures
        match r {
            Some(j) => j < header@.len() && last_index_of(header@.map_values(|v: Vec<u8>| v@), seq![a, b, c]) == j,
            None => last_index_of(header@.map_values(|v: Vec<u8>| v@), seq![a, b, c]) == -1,
        },
{
    let ghost hs = header@.map_values(|v: Vec<u8>| v@);
    let mut found: Option<usize> = None;
    let mut i: usize = 0;
    while i < header.len()
        invariant
            i <= header@.len(),
            hs == header@.map_values(|v: Vec<u8>| v@),
            match found {
                Some(j) => j < i && last_index_of(hs.take(i as int), seq![a, b, c]) == j,
                None => last_index_of(hs.take(i as int), seq![a, b, c]) == -1,
            },
        decreases header@.len() - i,
    {
        let hit = is_word3(&header[i], a, b, c);
        proof {
            assert(hs.take(i + 1).drop_last() =~= hs.take(i as int));
            assert(hs.take(i + 1).last() == hs[i as int]);
            assert(hs[i as int] == header@[i as int]@);
        }
        if hit {
            found = Some(i);
        }
        i += 1;
    }
    proof {
        assert(hs.take(header@.len() as int) =~= hs);
    }
    found
}

/// The bytes of the required latitude column name, `lat`.
pub open spec fn lat_name() -> Seq<u8> {
    seq![108u8, 97, 116]
}

/// The bytes of the required longitude column name, `lon`.
pub open spec fn lon_name() -> Seq<u8> {
    seq![108u8, 111, 110]
}

/// The cells of a header row, as byte strings.
pub open spec fn header_view(h: Seq<Vec<u8>>) -> Seq<Seq<u8>> {
    h.map_values(|v: Vec<u8>| v@)
}

/// The cells of all data rows, as byte strings.
pub open spec fn rows_view(rows: Seq<Vec<Vec<u8>>>) -> Seq<Seq<Seq<u8>>> {
    rows.map_values(|r: Vec<Vec<u8>>| r@.map_values(|f: Vec<u8>| f@))
}

/// The coordinate a data row denotes, if the row is kept.
///
/// A row is kept exactly when it has as many cells as the header and both
/// coordinate cells match the decimal grammar.
pub open spec fn row_coord(row: Seq<Seq<u8>>, li: int, lo: int, width: int) -> Option<Coord> {
    if row.len() == width && 0 <= li < width && 0 <= lo < width && valid_decimal(row[li])
        && valid_decimal(row[lo]) {
        Some(
            Coord {
                lat: decimal_microdeg(row[li]) as i64,
                lon: decimal_microdeg(row[lo]) as i64,
            },
        )
    } else {
        None
    }
}

/// The catalog a sequence of rows denotes: kept rows in order, skipped rows
/// silently dropped.
pub open spec fn catalog_of(rows: Seq<Seq<Seq<u8>>>, li: int, lo: int, width: int) -> Seq<Coord>
    decreases rows.len(),
{
    if rows.len() == 0 {
        Seq::empty()
    } else {
        let rest = catalog_of(rows.drop_last(), li, lo, width);
        match row_coord(rows.last(), li, lo, width) {
            Some(c) => rest.push(c),
            None => rest,
        }
    }
}

/// Build the address catalog from parsed delimited rows, in file order.
///
/// The `lat` and `lon` columns are looked up in the header, the last
/// occurrence winning when a name repeats; a missing column is fatal. Every
/// data row that has the header's width and two well-formed decimal cells
/// contributes one coordinate; all other rows are skipped.
pub fn catalog_from_rows(header: &Vec<Vec<u8>>, rows: &Vec<Vec<Vec<u8>>>) -> (r: Result<
    Vec<Coord>,
    CatalogError,
>)
    ensures
        match r {
            Ok(c) => {
                let li = last_index_of(header_view(header@), lat_name());
                let lo = last_index_of(header_view(header@), lon_name());
                &&& li >= 0
                &&& lo >= 0
                &&& c@ == catalog_of(rows_view(rows@), li, lo, header@.len() as int)
            },
            Err(CatalogError::MissingLatColumn) => last_index_of(header_view(header@), lat_name())
                == -1,
            Err(CatalogError::MissingLonColumn) => last_index_of(header_view(header@), lat_name())
                >= 0 && last_index_of(header_view(header@), lon_name()) == -1,
        },
{
    let li = match find_column(header, 108, 97, 116) {
        Some(j) => j,
        None => {
            return Err(CatalogError::MissingLatColumn);
        },
    };
    let lo = match find_column(header, 108, 111, 110) {
        Some(j) => j,
        None => {
            return Err(CatalogError::MissingLonColumn);
        },
    };
    let width: usize = header.len();
    let ghost rv = rows_view(rows@);
    let mut out: Vec<Coord> = Vec::new();
    let mut i: usize = 0;
    while i < rows.len()
        invariant
            i <= rows@.len(),
            rv == rows_view(rows@),
            li < width,
            lo < width,
            width == header@.len(),
            out@ == catalog_of(rv.take(i as int), li as int, lo as int, width as int),
        decreases rows@.len() - i,
    {
        proof {
            assert(rv.take(i + 1).drop_last() =~= rv.take(i as int));
            assert(rv.take(i + 1).last() == rv[i as int]);
            assert(rv[i as int] == rows@[i as int]@.map_values(|f: Vec<u8>| f@));
        }
        let row: &Vec<Vec<u8>> = &rows[i];
        if row.len() == width {
            let lat = parse_microdeg(&row[li]);
            let lon = parse_microdeg(&row[lo]);
            proof {
                assert(rv[i as int][li as int] == row@[li as int]@);
                assert(rv[i as int][lo as int] == row@[lo as int]@);
            }
            match (lat, lon) {
                (Some(a), Some(b)) => {
                    out.push(Coord { lat: a, lon: b });
                },
                _ => {},
            }
        }
        i += 1;
    }
    proof {
        assert(rv.take(rows@.len() as int) =~= rv);
    }
    Ok(out)
}

/// Relies on rand's `SliceRandom::shuffle` with the rng of `rand::rng`: a
/// Fisher-Yates in-place permutation of the slice, so whatever order comes
/// out, the elements themselves are unchanged.
#[verifier::external_body]
fn shuffle_coords(v: &mut Vec<Coord>)
    ensures
        final(v)@.to_multiset() == old(v)@.to_multiset(),
        final(v)@.len() == old(v)@.len(),
{
    v.shuffle(&mut rand::rng());
}

/// Build the address catalog and shuffle it, so that the spatial index built
/// over it is not correlated with input file order.
///
/// The result holds exactly the coordinates of the kept rows, in an order
/// this contract leaves open.
pub fn load_catalog(header: &Vec<Vec<u8>>, rows: &Vec<Vec<Vec<u8>>>) -> (r: Result<
    Vec<Coord>,
    CatalogError,
>)
    ensures
        match r {
            Ok(c) => {
                let li = last_index_of(header_view(header@), lat_name());
                let lo = last_index_of(header_view(header@), lon_name());
                &&& li >= 0
                &&& lo >= 0
                &&& c@.to_multiset() == catalog_of(
                    rows_view(rows@),
                    li,
                    lo,
                    header@.len() as int,
                ).to_multiset()
            },
            Err(CatalogError::MissingLatColumn) => last_index_of(header_view(header@), lat_name())
                == -1,
            Err(CatalogError::MissingLonColumn) => last_index_of(header_view(header@), lat_name())
                >= 0 && last_index_of(header_view(header@), lon_name()) == -1,
        },
{
    match catalog_from_rows(header, rows) {
        Ok(mut c) => {
            shuffle_coords(&mut c);
            Ok(c)
        },
        Err(e) => Err(e),
    }
}

} // verus!

