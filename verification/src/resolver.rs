use vstd::prelude::*;
use crate::models::Coord;

verus! {

/// Bound on embedding components: the unit sphere scaled by one million,
/// with slack for rounding done by the caller that projects coordinates.
pub const EMBED_BOUND: i64 = 2_000_000;

/// A point of the 3-D unit-sphere embedding, in fixed point.
///
/// The caller projects `(lat, lon)` to
/// `(cos lat * cos lon, cos lat * sin lon, sin lat)` and scales each component
/// by one million before resolving against the catalog.
#[derive(Clone, Copy, PartialEq, Eq, Structural, Debug)]
pub struct EmbeddedPoint {
    pub x: i64,
    pub y: i64,
    pub z: i64,
}

impl EmbeddedPoint {
    /// Components stay within the scaled unit ball.
    pub open spec fn in_range(self) -> bool {
        &&& -EMBED_BOUND <= self.x <= EMBED_BOUND
        &&& -EMBED_BOUND <= self.y <= EMBED_BOUND
        &&& -EMBED_BOUND <= self.z <= EMBED_BOUND
    }
}

/// Squared Euclidean distance between two embedded points.
pub open spec fn sq_dist(a: EmbeddedPoint, b: EmbeddedPoint) -> int {
    (a.x - b.x) * (a.x - b.x) + (a.y - b.y) * (a.y - b.y) + (a.z - b.z) * (a.z - b.z)
}

/// The catalog entry a sample point resolved to.
#[derive(Clone, Copy, PartialEq, Eq, Structural, Debug)]
pub struct NearestMatch {
    /// Index of the resolved address in the catalog.
    pub item: usize,
    /// Squared embedding distance from the query to that address.
    pub distance: u64,
}

/// A square is never negative.
proof fn lemma_square_nonneg(a: int)
    ensures
        a * a >= 0,
{
    assert(a * a >= 0) by (nonlinear_arith);
}

/// A squared distance between in-range points fits well under `u64::MAX`.
proof fn lemma_sq_dist_bounds(a: EmbeddedPoint, b: EmbeddedPoint)
    requires
        a.in_range(),
        b.in_range(),
    ensures
        0 <= sq_dist(a, b) <= 48_000_000_000_000,
{
    assert(
        (a.x - b.x) * (a.x - b.x) <= 16_000_000_000_000 && (a.x - b.x) * (a.x - b.x) >= 0 && (a.y
            - b.y) * (a.y - b.y) <= 16_000_000_000_000 && (a.y - b.y) * (a.y - b.y) >= 0 && (a.z
            - b.z) * (a.z - b.z) <= 16_000_000_000_000 && (a.z - b.z) * (a.z - b.z) >= 0)
        by (nonlinear_arith)
        requires
            -4_000_000 <= a.x - b.x <= 4_000_000,
            -4_000_000 <= a.y - b.y <= 4_000_000,
            -4_000_000 <= a.z - b.z <= 4_000_000,
    ;
}

/// Compute the squared embedding distance.
fn dist_sq(a: EmbeddedPoint, b: EmbeddedPoint) -> (r: u64)
    requires
        a.in_range(),
        b.in_range(),
    ensures
        r == sq_dist(a, b),
{
    proof {
        lemma_sq_dist_bounds(a, b);
        assert(
            (a.x - b.x) * (a.x - b.x) <= 16_000_000_000_000 && (a.x - b.x) * (a.x - b.x) >= 0 && (
            a.y - b.y) * (a.y - b.y) <= 16_000_000_000_000 && (a.y - b.y) * (a.y - b.y) >= 0 && (a.z
                - b.z) * (a.z - b.z) <= 16_000_000_000_000 && (a.z - b.z) * (a.z - b.z) >= 0)
            by (nonlinear_arith)
            requires
                -4_000_000 <= a.x - b.x <= 4_000_000,
                -4_000_000 <= a.y - b.y <= 4_000_000,
                -4_000_000 <= a.z - b.z <= 4_000_000,
        ;
    }
    let dx: i64 = a.x - b.x;
    let dy: i64 = a.y - b.y;
    let dz: i64 = a.z - b.z;
    (dx * dx + dy * dy + dz * dz) as u64
}

/// The immutable address catalog: coordinates and, entry for entry, their
/// unit-sphere embedding, over which nearest-neighbor queries run.
pub struct AddressCatalog {
    pub coords: Vec<Coord>,
    pub embedded: Vec<EmbeddedPoint>,
}

impl AddressCatalog {
    /// One embedded point per coordinate, all of them in range.
    pub open spec fn wf(self) -> bool {
        &&& self.coords@.len() == self.embedded@.len()
        &&& forall|i: int|
            0 <= i < self.embedded@.len() ==> (#[trigger] self.embedded@[i]).in_range()
    }

    /// Build a catalog, refusing mismatched lengths or out-of-range points.
    pub fn new(coords: Vec<Coord>, embedded: Vec<EmbeddedPoint>) -> (r: Option<AddressCatalog>)
        ensures
            match r {
                Some(c) => c.wf() && c.coords == coords && c.embedded == embedded,
                None => coords@.len() != embedded@.len() || exists|i: int|
                    0 <= i < embedded@.len() && !(#[trigger] embedded@[i]).in_range(),
            },
    {
        if coords.len() != embedded.len() {
            return None;
        }
        let mut i: usize = 0;
        while i < embedded.len()
            invariant
                i <= embedded@.len(),
                forall|j: int| 0 <= j < i ==> (#[trigger] embedded@[j]).in_range(),
            decreases embedded@.len() - i,
        {
            let p = embedded[i];
            if !(-EMBED_BOUND <= p.x && p.x <= EMBED_BOUND && -EMBED_BOUND <= p.y && p.y
                <= EMBED_BOUND && -EMBED_BOUND <= p.z && p.z <= EMBED_BOUND) {
                return None;
            }
            i += 1;
        }
        Some(AddressCatalog { coords, embedded })
    }

    /// Number of catalog entries.
    pub fn len(&self) -> (r: usize)
        ensures
            r == self.coords@.len(),
    {
        self.coords.len()
    }

    /// Resolve a query point to its nearest catalog entry by squared
    /// embedding distance, the earliest entry winning a tie.
    ///
    /// Unlike an approximate spatial index, this search is exhaustive, so the
    /// returned entry is exactly the closest one.
    pub fn resolve(&self, q: EmbeddedPoint) -> (r: Option<NearestMatch>)
        requires
            self.wf(),
            q.in_range(),
        ensures
            match r {
                Some(m) => {
                    &&& self.embedded@.len() > 0
                    &&& m.item < self.embedded@.len()
                    &&& m.distance == sq_dist(q, self.embedded@[m.item as int])
                    &&& forall|j: int|
                        0 <= j < self.embedded@.len() ==> m.distance <= sq_dist(
                            q,
                            #[trigger] self.embedded@[j],
                        )
                    &&& forall|j: int|
                        0 <= j < m.item ==> m.distance < sq_dist(q, #[trigger] self.embedded@[j])
                },
                None => self.embedded@.len() == 0,
            },
    {
        if self.embedded.len() == 0 {
            return None;
        }
        let mut best_item: usize = 0;
        let mut best_dist: u64 = dist_sq(q, self.embedded[0]);
        let mut i: usize = 1;
        while i < self.embedded.len()
            invariant
                self.wf(),
                q.in_range(),
                self.embedded@.len() > 0,
                1 <= i <= self.embedded@.len(),
                best_item < i,
                best_dist == sq_dist(q, self.embedded@[best_item as int]),
                forall|j: int|
                    0 <= j < i ==> best_dist <= sq_dist(q, #[trigger] self.embedded@[j]),
                forall|j: int|
                    0 <= j < best_item ==> best_dist < sq_dist(q, #[trigger] self.embedded@[j]),
            decreases self.embedded@.len() - i,
        {
            let d = dist_sq(q, self.embedded[i]);
            if d < best_dist {
                best_item = i;
                best_dist = d;
            }
            i += 1;
        }
        Some(NearestMatch { item: best_item, distance: best_dist })
    }
}

/// A query that coincides with a catalog entry resolves at distance zero, to
/// an entry that carries the query point itself.
pub proof fn lemma_exact_hit_resolves_to_entry(
    cat: AddressCatalog,
    q: EmbeddedPoint,
    m: NearestMatch,
    k: int,
)
    requires
        cat.wf(),
        0 <= k < cat.embedded@.len(),
        cat.embedded@[k] == q,
        m.item < cat.embedded@.len(),
        m.distance == sq_dist(q, cat.embedded@[m.item as int]),
        forall|j: int|
            0 <= j < cat.embedded@.len() ==> m.distance <= sq_dist(q, #[trigger] cat.embedded@[j]),
    ensures
        m.distance == 0,
        cat.embedded@[m.item as int] == q,
{
    assert(sq_dist(q, cat.embedded@[k]) == 0);
    let b = cat.embedded@[m.item as int];
    lemma_square_nonneg(q.x - b.x);
    lemma_square_nonneg(q.y - b.y);
    lemma_square_nonneg(q.z - b.z);
    assert(m.distance <= sq_dist(q, cat.embedded@[k]));
    assert((q.x - b.x) * (q.x - b.x) == 0 ==> q.x == b.x) by (nonlinear_arith);
    assert((q.y - b.y) * (q.y - b.y) == 0 ==> q.y == b.y) by (nonlinear_arith);
    assert((q.z - b.z) * (q.z - b.z) == 0 ==> q.z == b.z) by (nonlinear_arith);
}

} // verus!
