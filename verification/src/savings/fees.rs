//! What a round pays out: the pool less the platform's fee.

use vstd::prelude::*;
use crate::savings::types::SavingsGroup;

verus! {

/// One hundred percent, in basis points.
pub const BASIS_POINTS: u32 = 10_000;

/// Everything paid into one full round.
pub open spec fn total_pool(contribution_amount: i128, total_members: u32) -> int {
    contribution_amount * total_members
}

/// The platform's share of a pool, rounded down.
pub open spec fn platform_fee(pool: int, fee_bps: u32) -> int {
    (pool * fee_bps) / 10_000
}

/// What the round's recipient gets.
pub open spec fn payout_amount(contribution_amount: i128, total_members: u32, fee_bps: u32) -> int {
    total_pool(contribution_amount, total_members) - platform_fee(
        total_pool(contribution_amount, total_members),
        fee_bps,
    )
}

/// Whether the fee arithmetic of a group stays within `i128`.
pub open spec fn amounts_fit(contribution_amount: i128, total_members: u32, fee_bps: u32) -> bool {
    &&& 0 <= contribution_amount
    &&& contribution_amount * total_members <= i128::MAX
    &&& contribution_amount * total_members * fee_bps <= i128::MAX
}

/// What the recipient of a round of `group` gets.
pub fn round_payout(group: &SavingsGroup) -> (amount: i128)
    requires
        amounts_fit(group.contribution_amount, group.total_members, group.platform_fee_percent),
    ensures
        amount == payout_amount(
            group.contribution_amount,
            group.total_members,
            group.platform_fee_percent,
        ),
{
    let pool: i128 = group.contribution_amount * (group.total_members as i128);
    assert(0 <= pool * group.platform_fee_percent) by (nonlinear_arith)
        requires
            0 <= pool,
            0 <= group.platform_fee_percent,
    ;
    let fee: i128 = (pool * (group.platform_fee_percent as i128)) / 10_000;
    pool - fee
}

} // verus!
