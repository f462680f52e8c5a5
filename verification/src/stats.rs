//! Success-rate arithmetic and per-group counting.
//!
//! A success rate is kept in permille (tenths of a percent, rounded to the
//! nearest tenth, halves up), so `2` successes out of `3` probed domains give
//! `667`, shown as `66.7%`. A result with zero probed domains has rate `0` by
//! definition; no division by zero can occur.

use vstd::prelude::*;

verus! {

/// Success rate in permille: `round(1000 * successes / total)`, and `0` when
/// `total` is zero.
pub open spec fn spec_rate_permille(successes: nat, total: nat) -> nat {
    if total == 0 {
        0
    } else {
        (2000 * successes + total) / (2 * total)
    }
}

/// The rate never exceeds 1000 permille when successes do not exceed the total.
pub proof fn lemma_rate_permille_bounded(successes: nat, total: nat)
    requires
        successes <= total,
    ensures
        spec_rate_permille(successes, total) <= 1000,
{
    if total > 0 {
        assert(2000 * successes + total <= 2000 * total + total) by (nonlinear_arith)
            requires
                successes <= total,
        ;
        assert((2000 * total + total) / (2 * total) <= 1000) by (nonlinear_arith)
            requires
                total > 0,
        ;
        assert((2000 * successes + total) / (2 * total) <= (2000 * total + total) / (2 * total))
            by (nonlinear_arith)
            requires
                total > 0,
                2000 * successes + total <= 2000 * total + total,
        ;
    }
}

/// Success rate of `successes` out of `total` probed domains, in permille.
///
/// A zero total yields rate zero; there is no division by zero and no
/// floating point anywhere in the computation.
pub fn rate_permille(successes: usize, total: usize) -> (r: u32)
    requires
        successes <= total,
    ensures
        r == spec_rate_permille(successes as nat, total as nat),
        r <= 1000,
        total == 0 ==> r == 0,
{
    rate_permille_u128(successes as u128, total as u128)
}

/// As [`rate_permille`], for counts already widened to 128 bits. The bound on
/// `total` keeps the scaled numerator within 128 bits; every count that fits
/// in 64 bits, or is a sum of two such, satisfies it.
pub fn rate_permille_u128(successes: u128, total: u128) -> (r: u32)
    requires
        successes <= total,
        total < 0x100000000000000000,
    ensures
        r == spec_rate_permille(successes as nat, total as nat),
        r <= 1000,
        total == 0 ==> r == 0,
{
    if total == 0 {
        0
    } else {
        proof {
            assert(2000 * successes + total <= u128::MAX) by (nonlinear_arith)
                requires
                    successes <= total,
                    total < 0x100000000000000000,
            ;
            lemma_rate_permille_bounded(successes as nat, total as nat);
        }
        let r: u128 = (2000 * successes + total) / (2 * total);
        r as u32
    }
}

/// The console tag of a success rate: `[OK]` above 80%, `[WARN]` above
/// 50%, `[FAIL]` otherwise.
pub fn status_label(rate_permille: u32) -> (r: &'static str)
    ensures
        rate_permille > 800 ==> r@ == "[OK]"@,
        500 < rate_permille <= 800 ==> r@ == "[WARN]"@,
        rate_permille <= 500 ==> r@ == "[FAIL]"@,
{
    if rate_permille > 800 {
        "[OK]"
    } else if rate_permille > 500 {
        "[WARN]"
    } else {
        "[FAIL]"
    }
}

} // verus!
