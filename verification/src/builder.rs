use vstd::prelude::*;
use crate::models::{Coord, PairRecord, TripletLossTrainingLine};
use crate::resolver::NearestMatch;

verus! {

// ---------------------------------------------------------------------------
// Ranking resolved neighbors: stable sort by embedding distance, dedup by
// resolved address, keep the closest few.
// ---------------------------------------------------------------------------

/// Every element is at most as far as the ones after it.
pub open spec fn sorted_by_distance(s: Seq<NearestMatch>) -> bool {
    forall|i: int, j: int| 0 <= i < j < s.len() ==> s[i].distance <= s[j].distance
}

/// No two elements resolve to the same catalog entry.
pub open spec fn distinct_items(s: Seq<NearestMatch>) -> bool {
    forall|i: int, j: int| 0 <= i < j < s.len() ==> s[i].item != s[j].item
}

/// Some element resolves to catalog entry `item`.
pub open spec fn has_item(s: Seq<NearestMatch>, item: usize) -> bool {
    exists|i: int| 0 <= i < s.len() && s[i].item == item
}

/// Insert `x` into `s` before the first element it undercuts, so that an
/// element already present keeps its place ahead of an equally distant
/// newcomer.
pub open spec fn spec_insert(s: Seq<NearestMatch>, x: NearestMatch) -> Seq<NearestMatch>
    decreases s.len(),
{
    if s.len() == 0 {
        seq![x]
    } else if s[0].distance <= x.distance {
        seq![s[0]] + spec_insert(s.drop_first(), x)
    } else {
        seq![x] + s
    }
}

/// Stable insertion sort by ascending distance.
pub open spec fn spec_sort(s: Seq<NearestMatch>) -> Seq<NearestMatch>
    decreases s.len(),
{
    if s.len() == 0 {
        Seq::empty()
    } else {
        spec_insert(spec_sort(s.drop_last()), s.last())
    }
}

/// Drop every element whose catalog entry appeared before it.
pub open spec fn spec_dedup(s: Seq<NearestMatch>) -> Seq<NearestMatch>
    decreases s.len(),
{
    if s.len() == 0 {
        Seq::empty()
    } else {
        let rest = spec_dedup(s.drop_last());
        if has_item(rest, s.last().item) {
            rest
        } else {
            rest.push(s.last())
        }
    }
}

/// The ranked candidate list: sort, dedup, keep at most `k`.
pub open spec fn spec_rank(s: Seq<NearestMatch>, k: int) -> Seq<NearestMatch> {
    let d = spec_dedup(spec_sort(s));
    if d.len() <= k {
        d
    } else {
        d.take(k)
    }
}

proof fn lemma_insert_len(s: Seq<NearestMatch>, x: NearestMatch)
    ensures
        spec_insert(s, x).len() == s.len() + 1,
    decreases s.len(),
{
    if s.len() > 0 && s[0].distance <= x.distance {
        lemma_insert_len(s.drop_first(), x);
    }
}

/// Inserting adds the new element and keeps the old ones.
proof fn lemma_insert_membership(s: Seq<NearestMatch>, x: NearestMatch, e: NearestMatch)
    ensures
        spec_insert(s, x).contains(e) <==> (s.contains(e) || e == x),
    decreases s.len(),
{
    let t = spec_insert(s, x);
    lemma_insert_len(s, x);
    if s.len() == 0 {
        assert(t[0] == x);
        if t.contains(e) {
            let i = choose|i: int| 0 <= i < t.len() && t[i] == e;
            assert(e == x);
        }
        if e == x {
            assert(t[0] == e);
            assert(t.contains(e));
        }
    } else if s[0].distance <= x.distance {
        let u = spec_insert(s.drop_first(), x);
        lemma_insert_len(s.drop_first(), x);
        lemma_insert_membership(s.drop_first(), x, e);
        assert(t[0] == s[0]);
        assert(forall|i: int| 0 <= i < u.len() ==> t[i + 1] == #[trigger] u[i]);
        if t.contains(e) {
            let i = choose|i: int| 0 <= i < t.len() && t[i] == e;
            if i == 0 {
                assert(s[0] == e);
                assert(s.contains(e));
            } else {
                assert(u[i - 1] == e);
                assert(u.contains(e));
                if s.drop_first().contains(e) {
                    let m = choose|m: int|
                        0 <= m < s.drop_first().len() && s.drop_first()[m] == e;
                    assert(s[m + 1] == e);
                    assert(s.contains(e));
                }
            }
        }
        if s.contains(e) {
            let i = choose|i: int| 0 <= i < s.len() && s[i] == e;
            if i == 0 {
                assert(t[0] == e);
                assert(t.contains(e));
            } else {
                assert(s.drop_first()[i - 1] == e);
                assert(s.drop_first().contains(e));
                assert(u.contains(e));
                let m = choose|m: int| 0 <= m < u.len() && u[m] == e;
                assert(t[m + 1] == e);
                assert(t.contains(e));
            }
        }
        if e == x {
            assert(u.contains(e));
            let m = choose|m: int| 0 <= m < u.len() && u[m] == e;
            assert(t[m + 1] == e);
            assert(t.contains(e));
        }
    } else {
        assert(t[0] == x);
        assert(forall|i: int| 0 <= i < s.len() ==> t[i + 1] == #[trigger] s[i]);
        if t.contains(e) {
            let i = choose|i: int| 0 <= i < t.len() && t[i] == e;
            if i > 0 {
                assert(s[i - 1] == e);
                assert(s.contains(e));
            }
        }
        if s.contains(e) {
            let i = choose|i: int| 0 <= i < s.len() && s[i] == e;
            assert(t[i + 1] == e);
            assert(t.contains(e));
        }
        if e == x {
            assert(t[0] == e);
            assert(t.contains(e));
        }
    }
}

/// Inserting into a sorted sequence keeps it sorted.
proof fn lemma_insert_sorted(s: Seq<NearestMatch>, x: NearestMatch)
    requires
        sorted_by_distance(s),
    ensures
        sorted_by_distance(spec_insert(s, x)),
    decreases s.len(),
{
    lemma_insert_len(s, x);
    if s.len() == 0 {
    } else if s[0].distance <= x.distance {
        assert(sorted_by_distance(s.drop_first())) by {
            assert(forall|i: int, j: int|
                0 <= i < j < s.drop_first().len() ==> s.drop_first()[i] == s[i + 1]
                    && s.drop_first()[j] == s[j + 1]);
        }
        lemma_insert_sorted(s.drop_first(), x);
        let t = spec_insert(s, x);
        let u = spec_insert(s.drop_first(), x);
        assert(forall|j: int| 0 <= j < u.len() ==> t[j + 1] == u[j]);
        assert(forall|e: NearestMatch| u.contains(e) ==> #[trigger] e.distance >= s[0].distance)
            by {
            assert forall|e: NearestMatch| u.contains(e) implies #[trigger] e.distance
                >= s[0].distance by {
                lemma_insert_membership(s.drop_first(), x, e);
                if s.drop_first().contains(e) {
                    let i = choose|i: int|
                        0 <= i < s.drop_first().len() && s.drop_first()[i] == e;
                    assert(s[i + 1] == e);
                }
            }
        }
        assert forall|i: int, j: int| 0 <= i < j < t.len() implies t[i].distance
            <= t[j].distance by {
            if i == 0 {
                assert(t[j] == u[j - 1]);
                assert(u.contains(u[j - 1]));
            } else {
                assert(t[i] == u[i - 1] && t[j] == u[j - 1]);
            }
        }
    } else {
        let t = spec_insert(s, x);
        assert forall|i: int, j: int| 0 <= i < j < t.len() implies t[i].distance
            <= t[j].distance by {
            if i > 0 {
                assert(t[i] == s[i - 1] && t[j] == s[j - 1]);
            } else {
                assert(t[j] == s[j - 1]);
            }
        }
    }
}

/// The sorted sequence is sorted and holds exactly the input's elements.
pub proof fn lemma_sort_properties(s: Seq<NearestMatch>)
    ensures
        sorted_by_distance(spec_sort(s)),
        spec_sort(s).len() == s.len(),
        forall|e: NearestMatch| spec_sort(s).contains(e) <==> s.contains(e),
    decreases s.len(),
{
    if s.len() > 0 {
        lemma_sort_properties(s.drop_last());
        lemma_insert_sorted(spec_sort(s.drop_last()), s.last());
        lemma_insert_len(spec_sort(s.drop_last()), s.last());
        assert forall|e: NearestMatch| spec_sort(s).contains(e) <==> s.contains(e) by {
            lemma_insert_membership(spec_sort(s.drop_last()), s.last(), e);
            assert(s.contains(e) <==> (s.drop_last().contains(e) || e == s.last())) by {
                if s.contains(e) {
                    let i = choose|i: int| 0 <= i < s.len() && s[i] == e;
                    if i < s.len() - 1 {
                        assert(s.drop_last()[i] == e);
                    }
                }
                if s.drop_last().contains(e) {
                    let i = choose|i: int| 0 <= i < s.len() - 1 && s.drop_last()[i] == e;
                    assert(s[i] == e);
                }
            }
        }
    }
}

/// The deduplicated sequence has pairwise distinct items, keeps only elements
/// of its input, and stays sorted.
pub proof fn lemma_dedup_properties(s: Seq<NearestMatch>)
    ensures
        distinct_items(spec_dedup(s)),
        spec_dedup(s).len() <= s.len(),
        forall|e: NearestMatch| #[trigger] spec_dedup(s).contains(e) ==> s.contains(e),
        sorted_by_distance(s) ==> sorted_by_distance(spec_dedup(s)),
    decreases s.len(),
{
    if s.len() > 0 {
        lemma_dedup_properties(s.drop_last());
        let rest = spec_dedup(s.drop_last());
        assert forall|e: NearestMatch| #[trigger] spec_dedup(s).contains(e) implies s.contains(
            e,
        ) by {
            if rest.contains(e) {
                assert(s.drop_last().contains(e));
                let i = choose|i: int| 0 <= i < s.len() - 1 && s.drop_last()[i] == e;
                assert(s[i] == e);
            } else {
                let d = spec_dedup(s);
                let i = choose|i: int| 0 <= i < d.len() && d[i] == e;
                if i < rest.len() {
                    assert(rest[i] == e);
                    assert(rest.contains(e));
                } else {
                    assert(e == s.last());
                    assert(s[s.len() - 1] == e);
                }
            }
        }
        if !has_item(rest, s.last().item) {
            let d = rest.push(s.last());
            assert forall|i: int, j: int| 0 <= i < j < d.len() implies d[i].item != d[j].item by {
                if j < rest.len() {
                    assert(rest[i] == d[i] && rest[j] == d[j]);
                } else {
                    assert(d[j] == s.last());
                    assert(rest[i] == d[i]);
                    assert(!(exists|m: int|
                        0 <= m < rest.len() && rest[m].item == s.last().item));
                }
            }
            if sorted_by_distance(s) {
                assert(sorted_by_distance(s.drop_last())) by {
                    assert(forall|i: int, j: int|
                        0 <= i < j < s.len() - 1 ==> s.drop_last()[i] == s[i]
                            && s.drop_last()[j] == s[j]);
                }
                assert forall|i: int, j: int| 0 <= i < j < d.len() implies d[i].distance
                    <= d[j].distance by {
                    if j == rest.len() {
                        assert(rest.contains(rest[i]));
                        assert(spec_dedup(s.drop_last()).contains(rest[i]));
                        assert(s.drop_last().contains(rest[i]));
                        let m = choose|m: int|
                            0 <= m < s.len() - 1 && s.drop_last()[m] == rest[i];
                        assert(s[m] == rest[i]);
                        assert(s[m].distance <= s[s.len() - 1].distance);
                    } else {
                        assert(d[i] == rest[i] && d[j] == rest[j]);
                    }
                }
            }
        } else {
            if sorted_by_distance(s) {
                assert(sorted_by_distance(s.drop_last())) by {
                    assert(forall|i: int, j: int|
                        0 <= i < j < s.len() - 1 ==> s.drop_last()[i] == s[i]
                            && s.drop_last()[j] == s[j]);
                }
            }
        }
    }
}

/// `spec_rank` yields at most `k` candidates, sorted by distance, pairwise
/// distinct in resolved address, all drawn from the input.
pub proof fn lemma_rank_properties(s: Seq<NearestMatch>, k: int)
    requires
        k >= 0,
    ensures
        spec_rank(s, k).len() <= k,
        sorted_by_distance(spec_rank(s, k)),
        distinct_items(spec_rank(s, k)),
        forall|i: int| 0 <= i < spec_rank(s, k).len() ==> s.contains(#[trigger] spec_rank(s, k)[i]),
{
    lemma_sort_properties(s);
    lemma_dedup_properties(spec_sort(s));
    let d = spec_dedup(spec_sort(s));
    let r = spec_rank(s, k);
    assert(forall|i: int| 0 <= i < r.len() ==> r[i] == d[i]);
    assert forall|i: int| 0 <= i < r.len() implies s.contains(#[trigger] r[i]) by {
        assert(d.contains(d[i]));
        assert(spec_sort(s).contains(d[i]));
    }
}

/// `spec_insert` splits the sequence at the first strictly farther element.
proof fn lemma_insert_at(s: Seq<NearestMatch>, x: NearestMatch, j: int)
    requires
        0 <= j <= s.len(),
        forall|i: int| 0 <= i < j ==> s[i].distance <= x.distance,
        j < s.len() ==> s[j].distance > x.distance,
    ensures
        spec_insert(s, x) == s.take(j) + seq![x] + s.skip(j),
    decreases j,
{
    if j == 0 {
        if s.len() == 0 {
            assert(spec_insert(s, x) =~= s.take(0) + seq![x] + s.skip(0));
        } else {
            assert(spec_insert(s, x) =~= s.take(0) + seq![x] + s.skip(0));
        }
    } else {
        assert(s[0].distance <= x.distance);
        let t = s.drop_first();
        assert(forall|i: int| 0 <= i < j - 1 ==> t[i] == s[i + 1]);
        assert(j - 1 < t.len() ==> t[j - 1] == s[j]);
        lemma_insert_at(t, x, j - 1);
        assert(seq![s[0]] + (t.take(j - 1) + seq![x] + t.skip(j - 1)) =~= s.take(j) + seq![x]
            + s.skip(j));
    }
}

/// Insert one match into a vector kept sorted by distance.
fn insert_sorted(v: &mut Vec<NearestMatch>, x: NearestMatch)
    ensures
        final(v)@ == spec_insert(old(v)@, x),
{
    let mut j: usize = 0;
    while j < v.len() && v[j].distance <= x.distance
        invariant
            j <= v@.len(),
            forall|i: int| 0 <= i < j ==> v@[i].distance <= x.distance,
            v@ == old(v)@,
        decreases v@.len() - j,
    {
        j += 1;
    }
    proof {
        lemma_insert_at(v@, x, j as int);
    }
    v.insert(j, x);
    proof {
        assert(final(v)@ =~= old(v)@.take(j as int) + seq![x] + old(v)@.skip(j as int));
    }
}

/// Sort matches by ascending embedding distance; equal distances keep their
/// input order.
pub fn sort_by_distance_vec(input: &Vec<NearestMatch>) -> (r: Vec<NearestMatch>)
    ensures
        r@ == spec_sort(input@),
{
    let mut out: Vec<NearestMatch> = Vec::new();
    let mut i: usize = 0;
    proof {
        assert(input@.take(0) =~= Seq::<NearestMatch>::empty());
    }
    while i < input.len()
        invariant
            i <= input@.len(),
            out@ == spec_sort(input@.take(i as int)),
        decreases input@.len() - i,
    {
        proof {
            assert(input@.take(i + 1).drop_last() =~= input@.take(i as int));
            assert(input@.take(i + 1).last() == input@[i as int]);
        }
        insert_sorted(&mut out, input[i]);
        i += 1;
    }
    proof {
        assert(input@.take(input@.len() as int) =~= input@);
    }
    out
}

/// True when some element of `v` resolves to `item`.
fn contains_item(v: &Vec<NearestMatch>, item: usize) -> (r: bool)
    ensures
        r == has_item(v@, item),
{
    let mut i: usize = 0;
    while i < v.len()
        invariant
            i <= v@.len(),
            forall|j: int| 0 <= j < i ==> v@[j].item != item,
        decreases v@.len() - i,
    {
        if v[i].item == item {
            return true;
        }
        i += 1;
    }
    false
}

/// Drop matches whose catalog entry already occurred, keeping the first.
pub fn dedup_by_item(v: &Vec<NearestMatch>) -> (r: Vec<NearestMatch>)
    ensures
        r@ == spec_dedup(v@),
{
    let mut out: Vec<NearestMatch> = Vec::new();
    let mut i: usize = 0;
    while i < v.len()
        invariant
            i <= v@.len(),
            out@ == spec_dedup(v@.take(i as int)),
        decreases v@.len() - i,
    {
        proof {
            assert(v@.take(i + 1).drop_last() =~= v@.take(i as int));
            assert(v@.take(i + 1).last() == v@[i as int]);
        }
        if !contains_item(&out, v[i].item) {
            out.push(v[i]);
        }
        i += 1;
    }
    proof {
        assert(v@.take(v@.len() as int) =~= v@);
    }
    out
}

/// Rank resolved neighbors for one anchor: ascending embedding distance,
/// first occurrence per resolved address, at most `k` kept.
pub fn rank_candidates(matches: &Vec<NearestMatch>, k: usize) -> (r: Vec<NearestMatch>)
    ensures
        r@ == spec_rank(matches@, k as int),
{
    let sorted = sort_by_distance_vec(matches);
    let mut deduped = dedup_by_item(&sorted);
    if deduped.len() > k {
        deduped.truncate(k);
        proof {
            assert(deduped@ == spec_dedup(spec_sort(matches@)).subrange(0, k as int));
            assert(spec_dedup(spec_sort(matches@)).subrange(0, k as int) =~= spec_dedup(
                spec_sort(matches@),
            ).take(k as int));
        }
    }
    deduped
}

// ---------------------------------------------------------------------------
// Turning ranked candidates and their route durations into records.
// ---------------------------------------------------------------------------

/// The outcome of querying the route oracle for one ranked candidate:
/// the resolved catalog entry and its travel duration, when computable.
#[derive(Clone, Copy, PartialEq, Eq, Structural, Debug)]
pub struct CandidateOutcome {
    /// Catalog index of the resolved neighbor.
    pub item: usize,
    /// Coordinate of the resolved neighbor.
    pub coord: Coord,
    /// Travel duration in milliseconds, `None` when no route was computable.
    pub duration: Option<u64>,
}

/// The durations of a candidate sequence, in order.
pub open spec fn durations_of(s: Seq<CandidateOutcome>) -> Seq<Option<u64>> {
    s.map_values(|c: CandidateOutcome| c.duration)
}

/// Index and value of the minimum duration among the first `n` entries,
/// the earliest such entry winning a tie; `None` when all failed.
pub open spec fn scan_min(d: Seq<Option<u64>>, n: int) -> Option<(int, u64)>
    decreases n,
{
    if n <= 0 {
        None
    } else {
        let prev = scan_min(d, n - 1);
        match d[n - 1] {
            None => prev,
            Some(v) => match prev {
                None => Some((n - 1, v)),
                Some((bi, bv)) => if v < bv {
                    Some((n - 1, v))
                } else {
                    prev
                },
            },
        }
    }
}

/// Index and value of the maximum duration among the first `n` entries,
/// the latest such entry winning a tie; `None` when all failed.
pub open spec fn scan_max(d: Seq<Option<u64>>, n: int) -> Option<(int, u64)>
    decreases n,
{
    if n <= 0 {
        None
    } else {
        let prev = scan_max(d, n - 1);
        match d[n - 1] {
            None => prev,
            Some(v) => match prev {
                None => Some((n - 1, v)),
                Some((bi, bv)) => if v >= bv {
                    Some((n - 1, v))
                } else {
                    prev
                },
            },
        }
    }
}

/// What `scan_min` returns: a success holding the least duration, the first
/// one to reach it; or nothing, exactly when every entry failed.
pub proof fn lemma_scan_min_props(d: Seq<Option<u64>>, n: int)
    requires
        0 <= n <= d.len(),
    ensures
        match scan_min(d, n) {
            None => forall|j: int| 0 <= j < n ==> !((#[trigger] d[j]) is Some),
            Some((i, v)) => {
                &&& 0 <= i < n
                &&& d[i] == Some(v)
                &&& forall|j: int| 0 <= j < n && (#[trigger] d[j]) is Some ==> v <= d[j].unwrap()
                &&& forall|j: int| 0 <= j < i && (#[trigger] d[j]) is Some ==> v < d[j].unwrap()
            },
        },
    decreases n,
{
    if n > 0 {
        lemma_scan_min_props(d, n - 1);
    }
}

/// What `scan_max` returns: a success holding the greatest duration, the last
/// one to reach it; or nothing, exactly when every entry failed.
pub proof fn lemma_scan_max_props(d: Seq<Option<u64>>, n: int)
    requires
        0 <= n <= d.len(),
    ensures
        match scan_max(d, n) {
            None => forall|j: int| 0 <= j < n ==> !((#[trigger] d[j]) is Some),
            Some((i, v)) => {
                &&& 0 <= i < n
                &&& d[i] == Some(v)
                &&& forall|j: int| 0 <= j < n && (#[trigger] d[j]) is Some ==> v >= d[j].unwrap()
                &&& forall|j: int| i < j < n && (#[trigger] d[j]) is Some ==> v > d[j].unwrap()
            },
        },
    decreases n,
{
    if n > 0 {
        lemma_scan_max_props(d, n - 1);
    }
}

/// When any entry succeeds, the minimum duration is at most the maximum.
pub proof fn lemma_min_le_max(d: Seq<Option<u64>>, n: int)
    requires
        0 <= n <= d.len(),
    ensures
        scan_min(d, n) is Some <==> scan_max(d, n) is Some,
        match (scan_min(d, n), scan_max(d, n)) {
            (Some((pi, pv)), Some((ni, nv))) => pv <= nv,
            (None, None) => true,
            _ => false,
        },
{
    lemma_scan_min_props(d, n);
    lemma_scan_max_props(d, n);
    match (scan_min(d, n), scan_max(d, n)) {
        (Some((pi, pv)), Some((ni, nv))) => {
            assert(d[ni] is Some);
        },
        (Some((pi, pv)), None) => {
            assert(d[pi] is Some);
        },
        (None, Some((ni, nv))) => {
            assert(d[ni] is Some);
        },
        (None, None) => {},
    }
}

/// The triplet record one anchor yields from its candidate outcomes: the
/// first-minimum duration gives the positive neighbor, the last-maximum the
/// negative one; no record when every route failed.
pub open spec fn spec_triplet(anchor: Coord, s: Seq<CandidateOutcome>) -> Option<
    TripletLossTrainingLine,
> {
    let d = durations_of(s);
    match (scan_min(d, s.len() as int), scan_max(d, s.len() as int)) {
        (Some((pi, pv)), Some((ni, nv))) => Some(
            TripletLossTrainingLine {
                anchor,
                positive: s[pi].coord,
                negative: s[ni].coord,
                positive_time: pv,
                negative_time: nv,
            },
        ),
        _ => None,
    }
}

/// Build the triplet record for one anchor.
///
/// Returns a record exactly when at least one candidate's route was
/// computable; with a single success the positive and negative sides
/// coincide. The record always satisfies its invariant.
pub fn build_triplet(anchor: Coord, outcomes: &Vec<CandidateOutcome>) -> (r: Option<
    TripletLossTrainingLine,
>)
    ensures
        r == spec_triplet(anchor, outcomes@),
        r is Some <==> exists|j: int|
            0 <= j < outcomes@.len() && (#[trigger] outcomes@[j].duration) is Some,
        r is Some ==> r.unwrap().wf() && r.unwrap().anchor == anchor,
{
    let ghost ds = durations_of(outcomes@);
    let mut best_min: Option<(usize, u64)> = None;
    let mut best_max: Option<(usize, u64)> = None;
    let mut i: usize = 0;
    while i < outcomes.len()
        invariant
            i <= outcomes@.len(),
            ds == durations_of(outcomes@),
            match (best_min, scan_min(ds, i as int)) {
                (None, None) => true,
                (Some((bi, bv)), Some((si, sv))) => bi < i && bi as int == si && bv == sv,
                _ => false,
            },
            match (best_max, scan_max(ds, i as int)) {
                (None, None) => true,
                (Some((bi, bv)), Some((si, sv))) => bi < i && bi as int == si && bv == sv,
                _ => false,
            },
        decreases outcomes@.len() - i,
    {
        proof {
            assert(ds[i as int] == outcomes@[i as int].duration);
        }
        match outcomes[i].duration {
            None => {},
            Some(v) => {
                best_min = match best_min {
                    None => Some((i, v)),
                    Some((bi, bv)) => if v < bv {
                        Some((i, v))
                    } else {
                        Some((bi, bv))
                    },
                };
                best_max = match best_max {
                    None => Some((i, v)),
                    Some((bi, bv)) => if v >= bv {
                        Some((i, v))
                    } else {
                        Some((bi, bv))
                    },
                };
            },
        }
        i += 1;
    }
    proof {
        lemma_min_le_max(ds, outcomes@.len() as int);
        lemma_scan_min_props(ds, outcomes@.len() as int);
        if scan_min(ds, outcomes@.len() as int) is Some {
            let (pi, pv) = scan_min(ds, outcomes@.len() as int).unwrap();
            assert(ds[pi] == outcomes@[pi].duration);
        }
        if exists|j: int| 0 <= j < outcomes@.len() && (#[trigger] outcomes@[j].duration) is Some {
            let j = choose|j: int|
                0 <= j < outcomes@.len() && (#[trigger] outcomes@[j].duration) is Some;
            assert(ds[j] == outcomes@[j].duration);
        }
    }
    match (best_min, best_max) {
        (Some((pi, pv)), Some((ni, nv))) => Some(
            TripletLossTrainingLine {
                anchor,
                positive: outcomes[pi].coord,
                negative: outcomes[ni].coord,
                positive_time: pv,
                negative_time: nv,
            },
        ),
        _ => None,
    }
}

/// The pair records one anchor yields: one per computable route, in
/// candidate order.
pub open spec fn spec_pairs(anchor: Coord, s: Seq<CandidateOutcome>) -> Seq<PairRecord>
    decreases s.len(),
{
    if s.len() == 0 {
        Seq::empty()
    } else {
        let rest = spec_pairs(anchor, s.drop_last());
        match s.last().duration {
            Some(v) => rest.push(
                PairRecord { source: s.last().coord, destination: anchor, time: v },
            ),
            None => rest,
        }
    }
}

/// Build the pair records for one anchor: every candidate whose route was
/// computable becomes one record from the resolved neighbor to the anchor;
/// failures are dropped and only counted by the caller's telemetry.
pub fn build_pairs(anchor: Coord, outcomes: &Vec<CandidateOutcome>) -> (r: Vec<PairRecord>)
    ensures
        r@ == spec_pairs(anchor, outcomes@),
{
    let mut out: Vec<PairRecord> = Vec::new();
    let mut i: usize = 0;
    while i < outcomes.len()
        invariant
            i <= outcomes@.len(),
            out@ == spec_pairs(anchor, outcomes@.take(i as int)),
        decreases outcomes@.len() - i,
    {
        proof {
            assert(outcomes@.take(i + 1).drop_last() =~= outcomes@.take(i as int));
            assert(outcomes@.take(i + 1).last() == outcomes@[i as int]);
        }
        match outcomes[i].duration {
            Some(v) => {
                out.push(PairRecord { source: outcomes[i].coord, destination: anchor, time: v });
            },
            None => {},
        }
        i += 1;
    }
    proof {
        assert(outcomes@.take(outcomes@.len() as int) =~= outcomes@);
    }
    out
}

/// Attach coordinates and durations to ranked candidates, in rank order.
pub fn assemble_outcomes(
    ranked: &Vec<NearestMatch>,
    coords: &Vec<Coord>,
    durations: &Vec<Option<u64>>,
) -> (r: Vec<CandidateOutcome>)
    requires
        durations@.len() == ranked@.len(),
        forall|i: int| 0 <= i < ranked@.len() ==> (#[trigger] ranked@[i]).item < coords@.len(),
    ensures
        r@.len() == ranked@.len(),
        forall|i: int|
            0 <= i < ranked@.len() ==> #[trigger] r@[i] == (CandidateOutcome {
                item: ranked@[i].item,
                coord: coords@[ranked@[i].item as int],
                duration: durations@[i],
            }),
{
    let mut out: Vec<CandidateOutcome> = Vec::new();
    let mut i: usize = 0;
    while i < ranked.len()
        invariant
            i <= ranked@.len(),
            durations@.len() == ranked@.len(),
            forall|j: int| 0 <= j < ranked@.len() ==> (#[trigger] ranked@[j]).item < coords@.len(),
            out@.len() == i,
            forall|j: int|
                0 <= j < i ==> #[trigger] out@[j] == (CandidateOutcome {
                    item: ranked@[j].item,
                    coord: coords@[ranked@[j].item as int],
                    duration: durations@[j],
                }),
        decreases ranked@.len() - i,
    {
        let m = ranked[i];
        out.push(CandidateOutcome { item: m.item, coord: coords[m.item], duration: durations[i] });
        i += 1;
    }
    out
}

/// Outcomes assembled over ranked candidates inherit their pairwise
/// distinct resolved addresses, so `lemma_triplet_endpoints_distinct`
/// applies to every triplet the pipeline builds.
pub proof fn lemma_ranked_outcomes_distinct(ranked: Seq<NearestMatch>, outcomes: Seq<CandidateOutcome>)
    requires
        distinct_items(ranked),
        outcomes.len() == ranked.len(),
        forall|i: int| 0 <= i < outcomes.len() ==> (#[trigger] outcomes[i]).item == ranked[i].item,
    ensures
        forall|i: int, j: int| 0 <= i < j < outcomes.len() ==> outcomes[i].item != outcomes[j].item,
{
}

/// Around one anchor, when two distinct candidates both produced a duration,
/// the positive and the negative side of the triplet resolve to different
/// catalog entries.
pub proof fn lemma_triplet_endpoints_distinct(s: Seq<CandidateOutcome>, a: int, b: int)
    requires
        forall|i: int, j: int| 0 <= i < j < s.len() ==> s[i].item != s[j].item,
        0 <= a < s.len(),
        0 <= b < s.len(),
        a != b,
        s[a].duration is Some,
        s[b].duration is Some,
    ensures
        match (scan_min(durations_of(s), s.len() as int), scan_max(
            durations_of(s),
            s.len() as int,
        )) {
            (Some((pi, pv)), Some((ni, nv))) => pi != ni && s[pi].item != s[ni].item,
            _ => false,
        },
{
    let d = durations_of(s);
    let n = s.len() as int;
    assert(d[a] == s[a].duration && d[b] == s[b].duration);
    lemma_scan_min_props(d, n);
    lemma_scan_max_props(d, n);
    match (scan_min(d, n), scan_max(d, n)) {
        (Some((pi, pv)), Some((ni, nv))) => {
            if pi == ni {
                assert(pv == nv);
                assert forall|j: int| 0 <= j < n && (#[trigger] d[j]) is Some implies d[j].unwrap()
                    == pv by {
                    assert(pv <= d[j].unwrap());
                    assert(nv >= d[j].unwrap());
                }
                if a != pi {
                    if a < pi {
                        assert(pv < d[a].unwrap());
                        assert(false);
                    } else {
                        assert(nv > d[a].unwrap());
                        assert(false);
                    }
                } else {
                    if b < pi {
                        assert(pv < d[b].unwrap());
                        assert(false);
                    } else {
                        assert(nv > d[b].unwrap());
                        assert(false);
                    }
                }
            }
            if pi < ni {
                assert(s[pi].item != s[ni].item);
            } else {
                assert(s[ni].item != s[pi].item);
            }
        },
        (Some((pi, pv)), None) => {
            assert(false);
        },
        (None, _) => {
            assert(d[a] is Some);
            assert(false);
        },
    }
}

/// The per-anchor pipeline as one mathematical function: rank the matches,
/// look each kept candidate up in the catalog, ask the oracle for its
/// duration, and build the triplet.
pub open spec fn spec_unit(
    anchor: Coord,
    matches: Seq<NearestMatch>,
    coords: Seq<Coord>,
    k: int,
    oracle: spec_fn(Coord, Coord) -> Option<u64>,
) -> Option<TripletLossTrainingLine> {
    let ranked = spec_rank(matches, k);
    let outcomes = ranked.map_values(
        |m: NearestMatch| CandidateOutcome {
            item: m.item,
            coord: coords[m.item as int],
            duration: oracle(coords[m.item as int], anchor),
        },
    );
    spec_triplet(anchor, outcomes)
}

/// Idempotence of a run: with a fixed catalog, fixed matches and a
/// deterministic oracle, two executions of the per-anchor pipeline yield the
/// same record, so repeated runs produce identical output sets whatever
/// order the records arrive in.
pub proof fn lemma_unit_idempotent(
    anchor: Coord,
    matches: Seq<NearestMatch>,
    coords: Seq<Coord>,
    k: int,
    oracle: spec_fn(Coord, Coord) -> Option<u64>,
    r1: Option<TripletLossTrainingLine>,
    r2: Option<TripletLossTrainingLine>,
)
    requires
        r1 == spec_unit(anchor, matches, coords, k, oracle),
        r2 == spec_unit(anchor, matches, coords, k, oracle),
    ensures
        r1 == r2,
{
}

} // verus!
