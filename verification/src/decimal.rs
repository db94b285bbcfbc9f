use vstd::prelude::*;

verus! {

/// Grammar and fixed-point value of plain decimal literals.
///
/// A catalog coordinate field is accepted when it matches
/// `sign? digit{1,12} ('.' digit*)?` with `sign` one of `+` `-`. Its value is
/// read in microdegrees: the fraction is kept to six digits, further digits
/// are truncated.

/// ASCII digit.
pub open spec fn is_digit(b: u8) -> bool {
    48 <= b && b <= 57
}

/// Every byte of `s` is an ASCII digit.
pub open spec fn all_digits(s: Seq<u8>) -> bool {
    forall|k: int| 0 <= k < s.len() ==> is_digit(s[k])
}

/// The integer a digit string denotes, most significant digit first.
pub open spec fn digits_val(s: Seq<u8>) -> int
    decreases s.len(),
{
    if s.len() == 0 {
        0
    } else {
        digits_val(s.drop_last()) * 10 + (s.last() - 48)
    }
}

/// Ten to the `n`.
pub open spec fn pow10(n: nat) -> int
    decreases n,
{
    if n == 0 {
        1
    } else {
        10 * pow10((n - 1) as nat)
    }
}

/// Length of the run of digits of `s` that starts at `i`.
pub open spec fn digit_run(s: Seq<u8>, i: int) -> int
    decreases s.len() - i,
{
    if 0 <= i && i < s.len() && is_digit(s[i]) {
        1 + digit_run(s, i + 1)
    } else {
        0
    }
}

/// 1 when `s` opens with a sign byte, else 0.
pub open spec fn sign_len(s: Seq<u8>) -> int {
    if s.len() > 0 && (s[0] == 43 || s[0] == 45) {
        1
    } else {
        0
    }
}

/// `s` matches the accepted decimal grammar.
pub open spec fn valid_decimal(s: Seq<u8>) -> bool {
    let sl = sign_len(s);
    let n = digit_run(s, sl);
    &&& 1 <= n <= 12
    &&& (sl + n == s.len() || (sl + n < s.len() && s[sl + n] == 46 && all_digits(
        s.subrange(sl + n + 1, s.len() as int),
    )))
}

/// The microdegree value of a fraction digit string: the first six digits,
/// padded with zeros on the right up to six.
pub open spec fn frac_scaled(f: Seq<u8>) -> int {
    if f.len() >= 6 {
        digits_val(f.take(6))
    } else {
        digits_val(f) * pow10((6 - f.len()) as nat)
    }
}

/// The value of a valid decimal literal, in microdegrees.
pub open spec fn decimal_microdeg(s: Seq<u8>) -> int {
    let sl = sign_len(s);
    let n = digit_run(s, sl);
    let frac = if sl + n < s.len() {
        frac_scaled(s.subrange(sl + n + 1, s.len() as int))
    } else {
        0
    };
    let mag = digits_val(s.subrange(sl, sl + n)) * 1_000_000 + frac;
    if s.len() > 0 && s[0] == 45 {
        -mag
    } else {
        mag
    }
}

/// A digit string's value is non-negative and below ten to its length.
pub proof fn lemma_digits_val_bound(s: Seq<u8>)
    requires
        all_digits(s),
    ensures
        0 <= digits_val(s) < pow10(s.len() as nat),
    decreases s.len(),
{
    if s.len() > 0 {
        assert(forall|k: int| 0 <= k < s.len() - 1 ==> s.drop_last()[k] == s[k]);
        lemma_digits_val_bound(s.drop_last());
        assert(pow10(s.len() as nat) == 10 * pow10((s.len() - 1) as nat));
    }
}

/// Appending a digit multiplies the value by ten and adds the digit.
pub proof fn lemma_digits_val_push(s: Seq<u8>, d: u8)
    ensures
        digits_val(s.push(d)) == digits_val(s) * 10 + (d - 48),
{
    assert(s.push(d).drop_last() =~= s);
    assert(s.push(d).last() == d);
}

/// A digit run ends exactly at the first non-digit.
pub proof fn lemma_digit_run_is(s: Seq<u8>, i: int, j: int)
    requires
        0 <= i <= j <= s.len(),
        forall|k: int| i <= k < j ==> is_digit(s[k]),
        j == s.len() || !is_digit(s[j]),
    ensures
        digit_run(s, i) == j - i,
    decreases j - i,
{
    if i < j {
        lemma_digit_run_is(s, i + 1, j);
    }
}

/// A digit run is never negative.
pub proof fn lemma_digit_run_nonneg(s: Seq<u8>, i: int)
    ensures
        digit_run(s, i) >= 0,
    decreases s.len() - i,
{
    if 0 <= i && i < s.len() && is_digit(s[i]) {
        lemma_digit_run_nonneg(s, i + 1);
    }
}

/// A run of digits gives the digit run at least that length.
pub proof fn lemma_digit_run_at_least(s: Seq<u8>, i: int, j: int)
    requires
        0 <= i <= j <= s.len(),
        forall|k: int| i <= k < j ==> is_digit(s[k]),
    ensures
        digit_run(s, i) >= j - i,
    decreases j - i,
{
    if i < j {
        lemma_digit_run_at_least(s, i + 1, j);
    } else {
        lemma_digit_run_nonneg(s, i);
    }
}

/// Powers of ten multiply by adding exponents.
pub proof fn lemma_pow10_adds(a: nat, b: nat)
    ensures
        pow10(a) * pow10(b) == pow10(a + b),
    decreases a,
{
    if a > 0 {
        lemma_pow10_adds((a - 1) as nat, b);
        assert(pow10(a) * pow10(b) == 10 * (pow10((a - 1) as nat) * pow10(b)))
            by (nonlinear_arith)
            requires
                pow10(a) == 10 * pow10((a - 1) as nat),
        ;
        assert(pow10((a + b) as nat) == 10 * pow10((a + b - 1) as nat));
    }
}

/// Parse a decimal literal into microdegrees.
///
/// Returns the value exactly when the bytes match the accepted grammar; any
/// other content is rejected, and the caller skips the row it came from.
#[verifier::rlimit(60)]
pub fn parse_microdeg(s: &Vec<u8>) -> (r: Option<i64>)
    ensures
        match r {
            Some(v) => valid_decimal(s@) && v == decimal_microdeg(s@),
            None => !valid_decimal(s@),
        },
{
    let n: usize = s.len();
    let mut i: usize = 0;
    let mut neg = false;
    if n > 0 && (s[0] == 43 || s[0] == 45) {
        neg = s[0] == 45;
        i = 1;
    }
    let start: usize = i;
    proof {
        assert(start == sign_len(s@));
        assert(s@.subrange(start as int, start as int) =~= Seq::<u8>::empty());
    }

    let mut int_val: u64 = 0;
    while i < n && 48 <= s[i] && s[i] <= 57
        invariant
            n == s@.len(),
            start == sign_len(s@),
            start <= i <= n,
            i - start <= 12,
            forall|k: int| start <= k < i ==> is_digit(s@[k]),
            int_val == digits_val(s@.subrange(start as int, i as int)),
        decreases n - i,
    {
        if i - start >= 12 {
            proof {
                lemma_digit_run_at_least(s@, start as int, i as int + 1);
            }
            return None;
        }
        proof {
            let pre = s@.subrange(start as int, i as int);
            lemma_digits_val_bound(pre);
            reveal_with_fuel(pow10, 13);
            lemma_digits_val_push(pre, s@[i as int]);
            assert(s@.subrange(start as int, i as int + 1) =~= pre.push(s@[i as int]));
        }
        int_val = int_val * 10 + (s[i] - 48) as u64;
        i += 1;
    }
    let int_digits: usize = i - start;
    proof {
        lemma_digit_run_is(s@, start as int, i as int);
        lemma_digits_val_bound(s@.subrange(start as int, i as int));
        reveal_with_fuel(pow10, 13);
    }
    if int_digits == 0 {
        return None;
    }

    let mut scaled_frac: u64 = 0;
    if i < n {
        if s[i] != 46 {
            return None;
        }
        i += 1;
        let fstart: usize = i;
        let ghost f = s@.subrange(fstart as int, n as int);
        let mut frac: u64 = 0;
        let mut scale: u64 = 1_000_000;
        proof {
            reveal_with_fuel(pow10, 7);
            assert(f.take(0) =~= Seq::<u8>::empty());
        }
        while i < n
            invariant
                n == s@.len(),
                start == sign_len(s@),
                digit_run(s@, start as int) == int_digits,
                1 <= int_digits <= 12,
                fstart == start + int_digits + 1,
                fstart <= n,
                s@[start + int_digits] == 46,
                fstart <= i <= n,
                f == s@.subrange(fstart as int, n as int),
                forall|k: int| fstart <= k < i ==> is_digit(s@[k]),
                i - fstart < 6 ==> frac == digits_val(f.take(i - fstart)) && frac < pow10(
                    (i - fstart) as nat,
                ) && scale == pow10((6 - (i - fstart)) as nat),
                i - fstart >= 6 ==> frac == digits_val(f.take(6)) && frac < pow10(6) && scale == 1,
            decreases n - i,
        {
            let c = s[i];
            if !(48 <= c && c <= 57) {
                proof {
                    let sl = sign_len(s@);
                    let fr = s@.subrange(sl + int_digits + 1, n as int);
                    assert(fr[i - fstart] == s@[i as int]);
                    assert(!all_digits(fr));
                }
                return None;
            }
            if i - fstart < 6 {
                proof {
                    reveal_with_fuel(pow10, 7);
                    let kept = (i - fstart) as int;
                    lemma_digits_val_push(f.take(kept), c);
                    assert(f.take(kept + 1) =~= f.take(kept).push(f[kept]));
                    assert(f[kept] == s@[i as int]);
                    assert(forall|k: int| 0 <= k < kept + 1 ==> is_digit(#[trigger] f.take(kept + 1)[k]));
                    lemma_digits_val_bound(f.take(kept + 1));
                }
                frac = frac * 10 + (c - 48) as u64;
                scale = scale / 10;
            }
            i += 1;
        }
        proof {
            reveal_with_fuel(pow10, 7);
            if f.len() < 6 {
                assert(f.take(f.len() as int) =~= f);
                assert(frac * scale == frac_scaled(f));
                assert(pow10((f.len()) as nat) * pow10((6 - f.len()) as nat) == pow10(6)) by {
                    lemma_pow10_adds(f.len() as nat, (6 - f.len()) as nat);
                }
                assert(frac * scale < pow10(6)) by (nonlinear_arith)
                    requires
                        frac < pow10((f.len()) as nat),
                        scale == pow10((6 - f.len()) as nat),
                        scale >= 1,
                        pow10((f.len()) as nat) * pow10((6 - f.len()) as nat) == pow10(6),
                ;
            } else {
                assert(frac * scale == frac_scaled(f));
                assert(frac * scale < pow10(6)) by (nonlinear_arith)
                    requires
                        frac < pow10(6),
                        scale == 1,
                ;
            }
        }
        scaled_frac = frac * scale;
        proof {
            assert(forall|k: int| 0 <= k < f.len() ==> is_digit(#[trigger] f[k])) by {
                assert(forall|k: int| 0 <= k < f.len() ==> f[k] == s@[k + fstart]);
            }
            assert(valid_decimal(s@));
            assert(scaled_frac == frac_scaled(
                s@.subrange(sign_len(s@) + digit_run(s@, sign_len(s@)) + 1, s@.len() as int),
            ));
        }
    } else {
        proof {
            assert(valid_decimal(s@));
        }
    }

    proof {
        reveal_with_fuel(pow10, 13);
        assert(int_val <= 999_999_999_999) by {
            lemma_digits_val_bound(s@.subrange(start as int, start as int + int_digits));
            reveal_with_fuel(pow10, 13);
        }
        assert(int_val * 1_000_000 <= 999_999_999_999u64 * 1_000_000) by (nonlinear_arith)
            requires
                int_val <= 999_999_999_999u64,
        ;
        assert(scaled_frac < 1_000_000);
    }
    let mag: u64 = int_val * 1_000_000 + scaled_frac;
    proof {
        assert(mag <= 999_999_999_999_000_000u64 + 1_000_000u64);
        assert(mag as int == digits_val(
            s@.subrange(sign_len(s@), sign_len(s@) + digit_run(s@, sign_len(s@))),
        ) * 1_000_000 + (if sign_len(s@) + digit_run(s@, sign_len(s@)) < s@.len() {
            frac_scaled(
                s@.subrange(sign_len(s@) + digit_run(s@, sign_len(s@)) + 1, s@.len() as int),
            )
        } else {
            0
        }));
        assert(neg == (s@.len() > 0 && s@[0] == 45));
    }
    let r: i64 = if neg {
        -(mag as i64)
    } else {
        mag as i64
    };
    Some(r)
}

} // verus!
