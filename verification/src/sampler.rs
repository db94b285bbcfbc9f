use vstd::prelude::*;
use vstd::arithmetic::div_mod::{
    lemma_fundamental_div_mod, lemma_fundamental_div_mod_converse, lemma_mod_bound,
};

verus! {

/// Pure ring-sampling plan.
///
/// A ring sample is fixed by its bearing from the ring's center. Bearings are
/// integers in microdegrees of a full turn; the caller feeds each one, with
/// the center and the ring radius, into the spherical destination formula to
/// obtain the sample's coordinates.

/// A full turn, in microdegrees.
pub const TURN_MICRODEG: u64 = 360_000_000;

/// Largest accepted sample count per ring.
pub const MAX_SAMPLES: usize = 1_000_000;

/// The unrotated bearing of the `i`-th of `count` samples: `i` equal parts
/// of a full turn, rounded down to a microdegree.
pub open spec fn raw_bearing(i: int, count: int) -> int {
    (i * 360_000_000) / count
}

/// The bearing of the `i`-th of `count` samples after offsetting the whole
/// ring by `phase`.
pub open spec fn bearing_microdeg(i: int, count: int, phase: int) -> int {
    (phase + raw_bearing(i, count)) % 360_000_000
}

/// An unrotated bearing stays within the turn.
pub proof fn lemma_raw_bearing_in_turn(i: int, count: int)
    requires
        1 <= count,
        0 <= i < count,
    ensures
        0 <= raw_bearing(i, count) < 360_000_000,
{
    lemma_fundamental_div_mod(i * 360_000_000, count);
    lemma_mod_bound(i * 360_000_000, count);
    let q = raw_bearing(i, count);
    let r = (i * 360_000_000) % count;
    assert(i * 360_000_000 >= 0) by (nonlinear_arith)
        requires
            i >= 0,
    ;
    assert(q >= 0) by (nonlinear_arith)
        requires
            i * 360_000_000 == count * q + r,
            i * 360_000_000 >= 0,
            0 <= r < count,
    ;
    assert(i * 360_000_000 <= (count - 1) * 360_000_000) by (nonlinear_arith)
        requires
            i <= count - 1,
    ;
    assert(q < 360_000_000) by (nonlinear_arith)
        requires
            i * 360_000_000 == count * q + r,
            i * 360_000_000 <= (count - 1) * 360_000_000,
            0 <= r < count,
            count >= 1,
            q >= 0,
    ;
}

/// Generate the sample bearings of one ring: `count` bearings, evenly spaced
/// around the starting phase.
///
/// With a fixed phase the result is a pure function of its arguments; a
/// randomized phase only rotates the whole ring (`lemma_phase_only_rotates`),
/// keeping the equal spacing stated by `lemma_equal_spacing`.
pub fn ring_bearings(count: usize, phase: u64) -> (r: Vec<u64>)
    requires
        1 <= count <= MAX_SAMPLES,
        phase < TURN_MICRODEG,
    ensures
        r@.len() == count,
        forall|i: int|
            0 <= i < count ==> r@[i] == bearing_microdeg(i, count as int, phase as int),
{
    let mut out: Vec<u64> = Vec::new();
    let mut i: usize = 0;
    while i < count
        invariant
            i <= count,
            count <= MAX_SAMPLES,
            phase < TURN_MICRODEG,
            out@.len() == i,
            forall|j: int|
                0 <= j < i ==> out@[j] == bearing_microdeg(j, count as int, phase as int),
        decreases count - i,
    {
        proof {
            assert((i as int) * 360_000_000 <= 1_000_000 * 360_000_000) by (nonlinear_arith)
                requires
                    i <= 1_000_000,
            ;
            lemma_raw_bearing_in_turn(i as int, count as int);
        }
        let raw: u64 = ((i as u64) * 360_000_000) / (count as u64);
        let b: u64 = (phase + raw) % 360_000_000;
        out.push(b);
        i += 1;
    }
    out
}

/// Equal angular spacing: whatever the phase, successive unrotated bearings
/// differ by the exact step `360_000_000 / count`, up to one microdegree of
/// rounding.
pub proof fn lemma_equal_spacing(i: int, count: int)
    requires
        1 <= count,
        0 <= i,
        i + 1 < count,
    ensures
        raw_bearing(i + 1, count) - raw_bearing(i, count) >= 360_000_000int / count,
        raw_bearing(i + 1, count) - raw_bearing(i, count) <= 360_000_000int / count + 1,
{
    let t: int = 360_000_000;
    lemma_fundamental_div_mod(i * t, count);
    lemma_mod_bound(i * t, count);
    lemma_fundamental_div_mod(t, count);
    lemma_mod_bound(t, count);
    let q1 = (i * t) / count;
    let r1 = (i * t) % count;
    let q = t / count;
    let r = t % count;
    assert((i + 1) * t == count * (q1 + q) + (r1 + r)) by (nonlinear_arith)
        requires
            i * t == count * q1 + r1,
            t == count * q + r,
    ;
    if r1 + r < count {
        lemma_fundamental_div_mod_converse((i + 1) * t, count, q1 + q, r1 + r);
        assert(raw_bearing(i + 1, count) == q1 + q);
    } else {
        assert((i + 1) * t == count * (q1 + q + 1) + (r1 + r - count)) by (nonlinear_arith)
            requires
                (i + 1) * t == count * (q1 + q) + (r1 + r),
        ;
        lemma_fundamental_div_mod_converse((i + 1) * t, count, q1 + q + 1, r1 + r - count);
        assert(raw_bearing(i + 1, count) == q1 + q + 1);
    }
}

/// A phase offset only rotates the ring: each bearing is the unrotated one
/// advanced by the phase around the turn.
pub proof fn lemma_phase_only_rotates(i: int, count: int, phase: int)
    requires
        1 <= count,
        0 <= i < count,
        0 <= phase < 360_000_000,
    ensures
        bearing_microdeg(i, count, phase) == (bearing_microdeg(i, count, 0) + phase)
            % 360_000_000,
{
    lemma_raw_bearing_in_turn(i, count);
    let raw = raw_bearing(i, count);
    lemma_fundamental_div_mod_converse(raw, 360_000_000, 0, raw);
    assert(bearing_microdeg(i, count, 0) == raw);
}

} // verus!
