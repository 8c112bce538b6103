//! The size gate: the economic accept/reject threshold comparing the
//! candidate output's size with the original's.
//!
//! The configured factor is carried in permille (900 means the output must
//! be at most 90% of the original), so the comparison
//! `new / original <= factor` can be decided exactly in integers as
//! `new * 1000 <= original * factor`.

use vstd::prelude::*;
use vstd::arithmetic::div_mod::{lemma_div_is_ordered, lemma_div_multiples_vanish};

verus! {

/// Outcome of the size gate.
pub enum SizeGateResult {
    /// The candidate is small enough; `savings_permille` is `1000 - ratio`
    /// rounded down, where `ratio` is `new / original` in permille.
    Passed { original_bytes: u64, new_bytes: u64, savings_permille: u64 },
    /// The candidate is too large (or the original was empty);
    /// `ratio_permille` and `threshold_permille` are carried for reporting.
    Failed { original_bytes: u64, new_bytes: u64, ratio_permille: u64, threshold_permille: u64 },
}

/// The size gate accepts exactly when the original is non-empty and the exact
/// rational ratio `new / original` is at most `factor_permille / 1000`,
/// boundary included.
pub open spec fn spec_gate_passes(original: u64, new: u64, factor_permille: u32) -> bool {
    original > 0 && new * 1000 <= original * factor_permille
}

/// `new / original` in permille, rounded down and saturated to `u64::MAX`;
/// an empty original counts as an unbounded ratio.
pub open spec fn spec_ratio_permille(original: u64, new: u64) -> int {
    if original == 0 {
        u64::MAX as int
    } else if new * 1000 / original as int > u64::MAX {
        u64::MAX as int
    } else {
        new * 1000 / original as int
    }
}

/// Decide the size gate from the two byte sizes and the configured factor.
pub fn check_size_gate(original_bytes: u64, new_bytes: u64, factor_permille: u32) -> (r:
    SizeGateResult)
    requires
        0 < factor_permille <= 1000,
    ensures
        r is Passed <==> spec_gate_passes(original_bytes, new_bytes, factor_permille),
        r matches SizeGateResult::Passed { original_bytes: ob, new_bytes: nb, savings_permille }
            ==> ob == original_bytes && nb == new_bytes && savings_permille == 1000
            - spec_ratio_permille(original_bytes, new_bytes),
        r matches SizeGateResult::Failed {
            original_bytes: ob,
            new_bytes: nb,
            ratio_permille,
            threshold_permille,
        } ==> ob == original_bytes && nb == new_bytes && ratio_permille == spec_ratio_permille(
            original_bytes,
            new_bytes,
        ) && threshold_permille == factor_permille,
{
    if original_bytes == 0 {
        return SizeGateResult::Failed {
            original_bytes,
            new_bytes,
            ratio_permille: u64::MAX,
            threshold_permille: factor_permille as u64,
        };
    }
    let scaled: u128 = (new_bytes as u128) * 1000;
    proof {
        assert((original_bytes as int) * (factor_permille as int) <= (u64::MAX as int) * 1000)
            by (nonlinear_arith)
            requires
                factor_permille <= 1000,
                original_bytes <= u64::MAX,
        ;
    }
    let bound: u128 = (original_bytes as u128) * (factor_permille as u128);
    let quotient: u128 = scaled / (original_bytes as u128);
    if scaled <= bound {
        proof {
            lemma_div_is_ordered(
                new_bytes * 1000,
                original_bytes * factor_permille as int,
                original_bytes as int,
            );
            lemma_div_multiples_vanish(factor_permille as int, original_bytes as int);
        }
        SizeGateResult::Passed {
            original_bytes,
            new_bytes,
            savings_permille: 1000 - (quotient as u64),
        }
    } else {
        let ratio: u64 = if quotient > u64::MAX as u128 {
            u64::MAX
        } else {
            quotient as u64
        };
        SizeGateResult::Failed {
            original_bytes,
            new_bytes,
            ratio_permille: ratio,
            threshold_permille: factor_permille as u64,
        }
    }
}

/// The boundary is inclusive: when the exact ratio equals the factor, the
/// gate accepts.
pub proof fn lemma_size_gate_inclusive_boundary(original: u64, new: u64, factor_permille: u32)
    requires
        original > 0,
        new * 1000 == original * factor_permille,
    ensures
        spec_gate_passes(original, new, factor_permille),
{
}

} // verus!
