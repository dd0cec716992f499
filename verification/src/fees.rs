//! Basis-point commission arithmetic.
//!
//! A commission is a truncated proportional share: `x * bps / 10000`.
//! The platform's cut of a commission is taken the same way, and the
//! developer receives the remainder by subtraction, never by a second
//! rounding, so the two fees always reassemble the commission exactly.

use vstd::arithmetic::div_mod::{lemma_div_by_multiple, lemma_div_is_ordered, lemma_div_pos_is_pos};
use vstd::arithmetic::mul::{lemma_mul_inequality, lemma_mul_nonnegative};
use vstd::prelude::*;

verus! {

/// Number of basis points in the whole: 10000 bps = 100%.
pub const BPS_SCALE: u32 = 10000;

/// The truncated basis-point fraction `x * bps / 10000`.
pub open spec fn bps_fraction(x: int, bps: int) -> int {
    (x * bps) / (BPS_SCALE as int)
}

/// Total commission owed on a reported profit at a vault's configured rate.
pub open spec fn commission_of(profit: int, share_bps: int) -> int {
    bps_fraction(profit, share_bps)
}

/// The platform's part of a commission at the configured cut.
pub open spec fn platform_fee_of(total_commission: int, cut_bps: int) -> int {
    bps_fraction(total_commission, cut_bps)
}

/// The developer's part: whatever the platform's truncation left behind.
pub open spec fn developer_fee_of(total_commission: int, cut_bps: int) -> int {
    total_commission - platform_fee_of(total_commission, cut_bps)
}

/// A truncated basis-point fraction of a nonnegative quantity at a rate
/// within scale never leaves `[0, x]`.
pub proof fn lemma_bps_fraction_bounds(x: int, bps: int)
    requires
        0 <= x,
        0 <= bps <= BPS_SCALE,
    ensures
        0 <= bps_fraction(x, bps) <= x,
{
    let scale = BPS_SCALE as int;
    lemma_mul_nonnegative(x, bps);
    lemma_div_pos_is_pos(x * bps, scale);
    lemma_mul_inequality(bps, scale, x);
    assert(x * bps == bps * x);
    assert(x * scale == scale * x);
    lemma_div_is_ordered(x * bps, x * scale, scale);
    lemma_div_by_multiple(x, scale);
}

/// Law: splitting a commission loses nothing to double rounding. For every
/// nonnegative commission and every cut within scale, the platform fee and
/// the developer fee are each within `[0, total]` and sum to the total
/// exactly.
pub proof fn lemma_fee_split_exact(total_commission: int, cut_bps: int)
    requires
        0 <= total_commission,
        0 <= cut_bps <= BPS_SCALE,
    ensures
        platform_fee_of(total_commission, cut_bps) + developer_fee_of(total_commission, cut_bps)
            == total_commission,
        0 <= platform_fee_of(total_commission, cut_bps) <= total_commission,
        0 <= developer_fee_of(total_commission, cut_bps) <= total_commission,
{
    lemma_bps_fraction_bounds(total_commission, cut_bps);
}

/// Commission owed on a positive profit at a rate within scale: truncated,
/// never negative, never more than the profit itself.
pub fn compute_commission(profit_amount: i128, share_bps: u32) -> (r: i128)
    requires
        0 < profit_amount,
        share_bps <= BPS_SCALE,
        profit_amount * share_bps <= i128::MAX,
    ensures
        r == commission_of(profit_amount as int, share_bps as int),
        0 <= r <= profit_amount,
{
    proof {
        lemma_bps_fraction_bounds(profit_amount as int, share_bps as int);
    }
    let wide: u128 = (profit_amount as u128) * (share_bps as u128);
    let total: u128 = wide / (BPS_SCALE as u128);
    total as i128
}

/// Split a commission between platform and developer. The platform fee is
/// the truncated cut; the developer fee is the exact remainder, so the two
/// always sum back to the commission.
pub fn split_commission(total_commission: i128, cut_bps: u32) -> (r: (i128, i128))
    requires
        0 <= total_commission,
        cut_bps <= BPS_SCALE,
        total_commission * cut_bps <= i128::MAX,
    ensures
        r.0 == platform_fee_of(total_commission as int, cut_bps as int),
        r.1 == developer_fee_of(total_commission as int, cut_bps as int),
        r.0 + r.1 == total_commission,
        0 <= r.0 <= total_commission,
        0 <= r.1 <= total_commission,
{
    proof {
        lemma_fee_split_exact(total_commission as int, cut_bps as int);
    }
    let wide: u128 = (total_commission as u128) * (cut_bps as u128);
    let platform_fee: i128 = (wide / (BPS_SCALE as u128)) as i128;
    let developer_fee: i128 = total_commission - platform_fee;
    (platform_fee, developer_fee)
}

} // verus!
