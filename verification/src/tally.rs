use vstd::prelude::*;

verus! {

/// Number of `true` entries among the first `n` outcomes.
pub open spec fn count_true(s: Seq<bool>, n: int) -> int
    decreases n,
{
    if n <= 0 {
        0
    } else {
        count_true(s, n - 1) + if s[n - 1] {
            1int
        } else {
            0int
        }
    }
}

/// Aggregate telemetry counters over dispatched sample units.
///
/// Every unit's outcome is recorded exactly once, as a success or as an
/// error; nothing disappears silently.
#[derive(Clone, Copy, PartialEq, Eq, Structural, Debug)]
pub struct Tally {
    pub success_count: u64,
    pub error_count: u64,
}

impl Tally {
    /// Units recorded so far.
    pub open spec fn dispatched(self) -> int {
        self.success_count + self.error_count
    }

    /// Fresh counters.
    pub fn new() -> (r: Tally)
        ensures
            r.success_count == 0,
            r.error_count == 0,
    {
        Tally { success_count: 0, error_count: 0 }
    }

    /// Record one unit's outcome.
    pub fn record(&mut self, success: bool)
        requires
            old(self).dispatched() < u64::MAX,
        ensures
            final(self).dispatched() == old(self).dispatched() + 1,
            final(self).success_count == old(self).success_count + if success {
                1int
            } else {
                0int
            },
            final(self).error_count == old(self).error_count + if success {
                0int
            } else {
                1int
            },
    {
        if success {
            self.success_count += 1;
        } else {
            self.error_count += 1;
        }
    }
}

/// Tally a whole sequence of unit outcomes.
pub fn tally_outcomes(outcomes: &Vec<bool>) -> (r: Tally)
    ensures
        r.success_count == count_true(outcomes@, outcomes@.len() as int),
        r.error_count == outcomes@.len() - count_true(outcomes@, outcomes@.len() as int),
        r.dispatched() == outcomes@.len(),
{
    let mut t = Tally::new();
    let mut i: usize = 0;
    while i < outcomes.len()
        invariant
            i <= outcomes@.len(),
            t.success_count == count_true(outcomes@, i as int),
            t.error_count == i - count_true(outcomes@, i as int),
        decreases outcomes@.len() - i,
    {
        proof {
            lemma_count_true_bounds(outcomes@, i as int);
        }
        t.record(outcomes[i]);
        i += 1;
    }
    t
}

/// The count of successes never exceeds the number of outcomes looked at.
pub proof fn lemma_count_true_bounds(s: Seq<bool>, n: int)
    requires
        0 <= n <= s.len(),
    ensures
        0 <= count_true(s, n) <= n,
    decreases n,
{
    if n > 0 {
        lemma_count_true_bounds(s, n - 1);
    }
}

/// The aggregate invariant: however a run's unit outcomes fall, successes
/// and errors add up to the number of dispatched units.
pub proof fn lemma_tally_accounts_for_all(s: Seq<bool>, t: Tally)
    requires
        t.success_count == count_true(s, s.len() as int),
        t.error_count == s.len() - count_true(s, s.len() as int),
    ensures
        t.dispatched() == s.len(),
{
}

} // verus!
