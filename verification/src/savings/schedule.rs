//! When each round falls due, and when a payment comes too late.

use vstd::prelude::*;
use crate::savings::types::{Frequency, SavingsGroup};

verus! {

/// Seconds in a weekly period.
pub const WEEK: u64 = 604_800;

/// Seconds in a biweekly period.
pub const FORTNIGHT: u64 = 1_209_600;

/// Seconds in a monthly period, counted as thirty days.
pub const MONTH: u64 = 2_592_000;

/// Seconds after a round's deadline during which a payment is still taken.
pub const GRACE_PERIOD: u64 = 259_200;

/// The length of one period, in seconds.
pub open spec fn period(frequency: Frequency) -> int {
    match frequency {
        Frequency::Weekly => 604_800,
        Frequency::BiWeekly => 1_209_600,
        Frequency::Monthly => 2_592_000,
    }
}

/// When a round falls due: one period after the start for round 1, one more
/// for each later round.
pub open spec fn deadline(start_timestamp: u64, frequency: Frequency, round: u32) -> int {
    start_timestamp + round * period(frequency)
}

/// Whether `now` lies beyond a deadline and its grace period.
pub open spec fn window_closed(deadline: int, now: u64) -> bool {
    now > deadline + GRACE_PERIOD
}

/// The length of one period, in seconds.
pub fn round_duration(frequency: Frequency) -> (seconds: u64)
    ensures
        seconds == period(frequency),
{
    match frequency {
        Frequency::Weekly => WEEK,
        Frequency::BiWeekly => FORTNIGHT,
        Frequency::Monthly => MONTH,
    }
}

/// The due time of `round` in `group`.
pub fn calculate_deadline(group: &SavingsGroup, round: u32) -> (due: u64)
    requires
        deadline(group.start_timestamp, group.frequency, round) <= u64::MAX,
    ensures
        due == deadline(group.start_timestamp, group.frequency, round),
{
    let seconds: u64 = round_duration(group.frequency);
    assert(round * seconds <= u64::MAX) by (nonlinear_arith)
        requires
            group.start_timestamp + round * seconds <= u64::MAX,
            0 <= group.start_timestamp,
    ;
    group.start_timestamp + (round as u64) * seconds
}

/// Whether a payment made at `now` comes after `due` and its grace period.
pub fn payment_window_closed(due: u64, now: u64) -> (late: bool)
    requires
        due + GRACE_PERIOD <= u64::MAX,
    ensures
        late == window_closed(due as int, now),
{
    now > due + GRACE_PERIOD
}

} // verus!
