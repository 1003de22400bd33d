//! The rules that settings and rosters obey, decided at run time.

use vstd::prelude::*;
use crate::savings::model::{
    creation_error, paid_count, representable, roster_ok, settings_ok, MAX_MEMBERS,
    MIN_CONTRIBUTION, MIN_MEMBERS,
};
use crate::savings::schedule::{round_duration, GRACE_PERIOD};
use crate::savings::types::{Error, Frequency, Member, MemberStatus, SavingsGroup};

verus! {

/// Why a group with these settings cannot be created at `now`, if it cannot:
/// the contribution is under the minimum, else the group would have fewer
/// than three or more than twenty members, else the start is not after `now`.
pub fn validate_creation(
    contribution_amount: i128,
    total_members: u32,
    start_timestamp: u64,
    now: u64,
) -> (refusal: Option<Error>)
    ensures
        refusal == creation_error(contribution_amount, total_members, start_timestamp, now),
{
    if contribution_amount < MIN_CONTRIBUTION {
        return Some(Error::ContributionTooLow);
    }
    if total_members < MIN_MEMBERS || total_members > MAX_MEMBERS {
        return Some(Error::InvalidMemberCount);
    }
    if start_timestamp <= now {
        return Some(Error::StartDateMustBeFuture);
    }
    None
}

/// Whether every amount and deadline of a group with these settings can be
/// held in the machine's integers.
pub fn fits_machine(
    contribution_amount: i128,
    total_members: u32,
    fee_bps: u32,
    start_timestamp: u64,
    frequency: Frequency,
) -> (ok: bool)
    ensures
        ok == representable(
            contribution_amount,
            total_members,
            fee_bps,
            start_timestamp,
            frequency,
        ),
{
    if contribution_amount < 0 {
        return false;
    }
    let pool: i128 = match contribution_amount.checked_mul(total_members as i128) {
        Some(pool) => pool,
        None => {
            return false;
        },
    };
    assert(0 <= pool) by (nonlinear_arith)
        requires
            pool == contribution_amount * total_members,
            0 <= contribution_amount,
            0 <= total_members,
    ;
    if pool.checked_mul(fee_bps as i128).is_none() {
        assert(0 <= pool * fee_bps) by (nonlinear_arith)
            requires
                0 <= pool,
                0 <= fee_bps,
        ;
        return false;
    }
    let seconds: u64 = round_duration(frequency);
    assert(total_members * seconds <= u64::MAX) by (nonlinear_arith)
        requires
            0 <= total_members <= u32::MAX,
            0 <= seconds <= 2_592_000,
    ;
    let span: u64 = (total_members as u64) * seconds;
    match start_timestamp.checked_add(span) {
        Some(last) => last.checked_add(GRACE_PERIOD).is_some(),
        None => false,
    }
}

/// Whether the settings of a group are within the rules.
pub fn settings_valid(group: &SavingsGroup) -> (ok: bool)
    ensures
        ok == settings_ok(*group),
{
    if group.total_members < MIN_MEMBERS || group.total_members > MAX_MEMBERS {
        return false;
    }
    if group.contribution_amount < MIN_CONTRIBUTION {
        return false;
    }
    if group.platform_fee_percent > 10_000 {
        return false;
    }
    if group.current_round > group.total_members {
        return false;
    }
    fits_machine(
        group.contribution_amount,
        group.total_members,
        group.platform_fee_percent,
        group.start_timestamp,
        group.frequency,
    )
}

/// Whether a roster is ranked by admission, from 0, and names nobody twice.
pub fn roster_valid(members: &Vec<Member>) -> (ok: bool)
    ensures
        ok == roster_ok(members@),
{
    let mut i: usize = 0;
    while i < members.len()
        invariant
            i <= members@.len(),
            forall|a: int| 0 <= a < i ==> (#[trigger] members@[a]).join_order == a,
            forall|a: int, b: int|
                0 <= a < b < i ==> (#[trigger] members@[a]).address@ != (
                #[trigger] members@[b]).address@,
        decreases members@.len() - i,
    {
        if members[i].join_order as usize != i {
            return false;
        }
        let mut j: usize = 0;
        while j < i
            invariant
                j <= i < members@.len(),
                forall|a: int|
                    0 <= a < j ==> (#[trigger] members@[a]).address@ != members@[i as int].address@,
            decreases i - j,
        {
            if members[j].address == members[i].address {
                return false;
            }
            j += 1;
        }
        i += 1;
    }
    true
}

/// How many of `members` have paid into the round being collected.
pub fn count_paid(members: &Vec<Member>) -> (count: usize)
    ensures
        count == paid_count(members@),
{
    let mut count: usize = 0;
    let mut i: usize = 0;
    while i < members.len()
        invariant
            i <= members@.len(),
            count <= i,
            count == paid_count(members@.take(i as int)),
        decreases members@.len() - i,
    {
        proof {
            assert(members@.take(i + 1).drop_last() =~= members@.take(i as int));
        }
        if members[i].status == MemberStatus::PaidCurrentRound {
            count += 1;
        }
        i += 1;
    }
    assert(members@.take(i as int) =~= members@);
    count
}

} // verus!
