use vstd::prelude::*;
use vstd::arithmetic::div_mod::lemma_fundamental_div_mod_converse;

verus! {

/// Work enumeration for the pipeline.
///
/// A run dispatches one work unit per (ring, address) pair; each unit casts
/// a fixed number of samples. The coordinator enumerates the full cross
/// product, ring-major, and uses the total only for progress reporting.

/// Total number of sample units a run will dispatch: addresses by rings by
/// samples per ring, used for progress percentages.
pub fn total_units(n_addresses: usize, n_rings: usize, n_samples: usize) -> (r: Option<u64>)
    ensures
        match r {
            Some(v) => v == n_addresses * n_rings * n_samples,
            None => n_addresses * n_rings * n_samples > u64::MAX,
        },
{
    if n_addresses == 0 || n_rings == 0 || n_samples == 0 {
        proof {
            assert(n_addresses * n_rings * n_samples == 0) by (nonlinear_arith)
                requires
                    n_addresses == 0 || n_rings == 0 || n_samples == 0,
            ;
        }
        return Some(0);
    }
    proof {
        assert((n_addresses as int) * (n_rings as int) <= 0xffff_ffff_ffff_ffff
            * 0xffff_ffff_ffff_ffff) by (nonlinear_arith)
            requires
                n_addresses <= 0xffff_ffff_ffff_ffff,
                n_rings <= 0xffff_ffff_ffff_ffff,
        ;
    }
    let p1: u128 = (n_addresses as u128) * (n_rings as u128);
    if p1 > 0xffff_ffff_ffff_ffffu128 {
        proof {
            assert(p1 * n_samples > 0xffff_ffff_ffff_ffffu128) by (nonlinear_arith)
                requires
                    p1 > 0xffff_ffff_ffff_ffffu128,
                    n_samples >= 1,
            ;
        }
        return None;
    }
    proof {
        assert((p1 as int) * (n_samples as int) <= 0xffff_ffff_ffff_ffff
            * 0xffff_ffff_ffff_ffff) by (nonlinear_arith)
            requires
                p1 <= 0xffff_ffff_ffff_ffff,
                n_samples <= 0xffff_ffff_ffff_ffff,
        ;
    }
    let p2: u128 = p1 * (n_samples as u128);
    proof {
        assert(p2 == (n_addresses * n_rings) * n_samples) by (nonlinear_arith)
            requires
                p2 == p1 * (n_samples as u128),
                p1 == (n_addresses as int) * (n_rings as int),
        ;
    }
    if p2 > 0xffff_ffff_ffff_ffffu128 {
        None
    } else {
        Some(p2 as u64)
    }
}

/// Enumerate the full (ring, address) cross product, ring-major: unit `k`
/// works on ring `k / n_addresses` and address `k % n_addresses`.
pub fn work_units(n_rings: usize, n_addresses: usize) -> (r: Vec<(usize, usize)>)
    requires
        n_rings * n_addresses <= usize::MAX,
    ensures
        r@.len() == n_rings * n_addresses,
        forall|k: int|
            0 <= k < r@.len() ==> #[trigger] r@[k] == (
                (k / (n_addresses as int)) as usize,
                (k % (n_addresses as int)) as usize,
            ),
{
    let mut out: Vec<(usize, usize)> = Vec::new();
    if n_addresses == 0 {
        proof {
            assert(n_rings * n_addresses == 0) by (nonlinear_arith)
                requires
                    n_addresses == 0,
            ;
        }
        return out;
    }
    let mut i: usize = 0;
    while i < n_rings
        invariant
            i <= n_rings,
            n_addresses >= 1,
            n_rings * n_addresses <= usize::MAX,
            out@.len() == i * n_addresses,
            forall|k: int|
                0 <= k < out@.len() ==> #[trigger] out@[k] == (
                    (k / (n_addresses as int)) as usize,
                    (k % (n_addresses as int)) as usize,
                ),
        decreases n_rings - i,
    {
        proof {
            assert((i + 1) * n_addresses <= n_rings * n_addresses && i * n_addresses + n_addresses
                == (i + 1) * n_addresses) by (nonlinear_arith)
                requires
                    i < n_rings,
                    n_addresses >= 1,
            ;
        }
        let mut j: usize = 0;
        while j < n_addresses
            invariant
                i < n_rings,
                j <= n_addresses,
                n_addresses >= 1,
                n_rings * n_addresses <= usize::MAX,
                i * n_addresses + n_addresses <= n_rings * n_addresses,
                out@.len() == i * n_addresses + j,
                forall|k: int|
                    0 <= k < out@.len() ==> #[trigger] out@[k] == (
                        (k / (n_addresses as int)) as usize,
                        (k % (n_addresses as int)) as usize,
                    ),
            decreases n_addresses - j,
        {
            proof {
                lemma_fundamental_div_mod_converse(
                    (i * n_addresses + j) as int,
                    n_addresses as int,
                    i as int,
                    j as int,
                );
            }
            out.push((i, j));
            j += 1;
        }
        i += 1;
    }
    out
}

} // verus!
