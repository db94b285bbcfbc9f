use vstd::prelude::*;

verus! {

/// Scale of the fixed-point coordinate representation: one unit of a
/// [`Coord`] field is one microdegree, 1/1_000_000 of a degree.
pub const MICRODEG_PER_DEG: i64 = 1_000_000;

/// Mean Earth radius in kilometers, the constant the spherical destination
/// formula divides a ring radius by to obtain an angular distance.
pub const EARTH_RADIUS_KM: u64 = 6371;

/// Number of sample points cast on each ring around an address.
pub const NEIGHBORS: usize = 20;

/// How many distinct resolved neighbors are kept per anchor when building a
/// triplet record.
pub const TOP_K: usize = 4;

/// A geographic point, latitude and longitude in microdegrees.
#[derive(Clone, Copy, PartialEq, Eq, Structural, Debug)]
pub struct Coord {
    pub lat: i64,
    pub lon: i64,
}

/// A metric-learning training record: around one anchor address, the resolved
/// neighbor with the shortest travel time (`positive`) and the one with the
/// longest (`negative`), with both durations in milliseconds.
#[derive(Clone, Copy, PartialEq, Eq, Structural, Debug)]
pub struct TripletLossTrainingLine {
    pub anchor: Coord,
    pub positive: Coord,
    pub negative: Coord,
    pub positive_time: u64,
    pub negative_time: u64,
}

impl TripletLossTrainingLine {
    /// Record invariant: the positive neighbor is never slower than the
    /// negative one.
    pub open spec fn wf(self) -> bool {
        self.positive_time <= self.negative_time
    }
}

/// A pair training record: one computable route from a resolved neighbor to
/// the anchor that cast the sample, with its duration in milliseconds.
#[derive(Clone, Copy, PartialEq, Eq, Structural, Debug)]
pub struct PairRecord {
    pub source: Coord,
    pub destination: Coord,
    pub time: u64,
}

} // verus!
