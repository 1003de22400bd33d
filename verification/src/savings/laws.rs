//! What holds of every savings group, whatever is asked of it and in
//! whatever order.

use vstd::prelude::*;
use crate::membership::{groups_of, lemma_groups_of};
use crate::savings::contract::ContractView;
use crate::savings::model::{has_paid, paid_count, LedgerView};
use crate::savings::proofs::{
    lemma_contributed_roster, lemma_defaulted_wf, lemma_joined_roster, lemma_joined_wf,
    lemma_paid_count_bound, lemma_paid_count_update, lemma_position, lemma_recorded_wf,
    lemma_round_completed_wf,
};
use crate::savings::schedule::window_closed;
use crate::savings::types::{Address, Error, GroupStatus, MemberStatus};

verus! {

/// A roster never holds more members than the group was created for.
pub proof fn law_roster_within_target(v: LedgerView)
    requires
        v.wf(),
    ensures
        v.members.len() <= v.group.total_members,
{
}

/// Once the roster is full, whoever is not on it is refused because the
/// group is full.
pub proof fn law_full_group_refuses(v: LedgerView, candidate: Seq<char>)
    requires
        v.wf(),
        v.members.len() == v.group.total_members,
        !v.has_member(candidate),
    ensures
        v.join_error(candidate) == Some(Error::GroupIsFull),
{
}

/// Every admission gives the newcomer the next rank, which is the number of
/// members admitted before, the admin included; it leaves every earlier
/// record as it was.
pub proof fn law_join_rank(v: LedgerView, candidate: Address, now: u64)
    requires
        v.wf(),
        v.join_error(candidate@) is None,
    ensures
        v.joined(candidate, now).wf(),
        v.joined(candidate, now).members.len() == v.members.len() + 1,
        v.joined(candidate, now).members.last().address == candidate,
        v.joined(candidate, now).members.last().join_order == v.members.len(),
        forall|i: int|
            0 <= i < v.members.len() ==> #[trigger] v.joined(candidate, now).members[i]
                == v.members[i],
{
    lemma_joined_wf(v, candidate, now);
}

/// Ranks are the positions on the roster, so no rank is used twice.
pub proof fn law_ranks_unique(v: LedgerView, i: int, j: int)
    requires
        v.wf(),
        0 <= i < v.members.len(),
        0 <= j < v.members.len(),
    ensures
        v.members[i].join_order == i,
        i != j ==> v.members[i].join_order != v.members[j].join_order,
{
}

/// No request to contribute, taken or refused, changes anybody's rank,
/// address or time of joining.
pub proof fn law_rank_never_changes(v: LedgerView, payer: Address, now: u64, i: int)
    requires
        v.wf(),
        0 <= i < v.members.len(),
    ensures
        v.contributed(payer, now).members.len() == v.members.len(),
        v.contributed(payer, now).members[i].join_order == v.members[i].join_order,
        v.contributed(payer, now).members[i].address == v.members[i].address,
        v.contributed(payer, now).members[i].join_timestamp == v.members[i].join_timestamp,
{
}

/// While a round is being collected it has paid nothing out: it holds one
/// contribution for each member marked as paid, no two by the same member,
/// and fewer than there are members.
pub proof fn law_no_payout_before_collection(v: LedgerView)
    requires
        v.wf(),
        v.in_progress(),
    ensures
        v.payouts_of(v.group.current_round).len() == 0,
        v.contributions_of(v.group.current_round).len() == paid_count(v.members),
        paid_count(v.members) < v.group.total_members,
        forall|a: int, b: int|
            0 <= a < b < v.contributions_of(v.group.current_round).len() ==> (
            #[trigger] v.contributions_of(v.group.current_round)[a]).member@ != (
            #[trigger] v.contributions_of(v.group.current_round)[b]).member@,
{
    assert(v.round_ok(v.group.current_round - 1));
}

/// A payment that is taken pays the round out exactly when it is the one
/// that brings the number of members who have paid up to the size of the
/// group; the payout is then the one payout of that round, and it goes to
/// the member whose rank is the round's place in the rotation.
pub proof fn law_payout_on_last_payment(v: LedgerView, payer: Address, now: u64)
    requires
        v.wf(),
        v.contribute_error(payer@, now) is None,
    ensures
        v.contributed(payer, now).wf(),
        v.contributed(payer, now).contributions_of(v.group.current_round).len() == paid_count(
            v.members,
        ) + 1,
        paid_count(v.members) + 1 < v.group.total_members ==> {
            &&& v.contributed(payer, now).payouts_of(v.group.current_round).len() == 0
            &&& v.contributed(payer, now).group == v.group
        },
        paid_count(v.members) + 1 == v.group.total_members ==> {
            let paid = v.contributed(payer, now).payouts_of(v.group.current_round);
            &&& paid.len() == 1
            &&& paid[0].recipient == v.members[v.group.current_round - 1].address
            &&& paid[0].amount == v.payout()
            &&& paid[0].round == v.group.current_round
            &&& paid[0].timestamp == now
            &&& v.contributed(payer, now).settled() == v.settled() + 1
        },
{
    let i = v.position(payer@).unwrap();
    let r = v.group.current_round - 1;
    assert(v.round_ok(r));
    let taken = v.recorded(i, payer, now);
    lemma_paid_count_bound(v.members);
    if taken.collected() {
        lemma_round_completed_wf(v, i, payer, now);
        assert(v.contributed(payer, now).round_ok(r));
    } else {
        lemma_recorded_wf(v, i, payer, now);
    }
}

/// Every round that has been paid out paid the member whose rank is the
/// round's place in the rotation, once, and that member's record says so.
pub proof fn law_rotation(v: LedgerView, round: u32)
    requires
        v.wf(),
        1 <= round <= v.settled(),
    ensures
        v.payouts_of(round).len() == 1,
        v.payouts_of(round)[0].recipient@ == v.members[round - 1].address@,
        v.payouts_of(round)[0].round == round,
        v.payouts_of(round)[0].amount == v.payout(),
        v.contributions_of(round).len() == v.group.total_members,
        v.members[round - 1].join_order == round - 1,
        v.members[round - 1].has_received_payout,
        v.members[round - 1].payout_round == round,
{
    assert(v.round_ok(round - 1));
    assert(v.member_ok(round - 1));
}

/// A member whose round has not been paid out has received nothing.
pub proof fn law_unpaid_until_turn(v: LedgerView, i: int)
    requires
        v.wf(),
        v.settled() <= i < v.members.len(),
    ensures
        !v.members[i].has_received_payout,
        v.members[i].payout_round == 0,
{
    assert(v.member_ok(i));
}

/// Whoever is on the roster is refused as a member already, whatever the
/// state of the group.
pub proof fn law_member_cannot_join_again(v: LedgerView, candidate: Seq<char>)
    requires
        v.has_member(candidate),
    ensures
        v.join_error(candidate) == Some(Error::AlreadyMember),
{
}

/// Whoever has just been admitted is refused as a member already when
/// asking again.
pub proof fn law_second_join_refused(v: LedgerView, candidate: Address, now: u64)
    requires
        v.wf(),
        v.join_error(candidate@) is None,
    ensures
        v.joined(candidate, now).join_error(candidate@) == Some(Error::AlreadyMember),
{
    lemma_joined_roster(v, candidate, now);
}

/// Whoever has paid into a round that is still being collected is refused,
/// at any later time, as having paid already.
pub proof fn law_second_payment_refused(v: LedgerView, payer: Address, now: u64, later: u64)
    requires
        v.wf(),
        v.contribute_error(payer@, now) is None,
        v.contributed(payer, now).group.status == GroupStatus::Active,
        v.contributed(payer, now).group.current_round == v.group.current_round,
    ensures
        v.contributed(payer, now).contribute_error(payer@, later) == Some(
            Error::AlreadyPaidThisRound,
        ),
{
    let i = v.position(payer@).unwrap();
    let w = v.contributed(payer, now);
    lemma_contributed_roster(v, payer, now);
    law_payout_on_last_payment(v, payer, now);
    lemma_position(w, i);
}

/// A group that is not active takes no payment from anybody.
pub proof fn law_no_payment_unless_active(v: LedgerView, payer: Seq<char>, now: u64)
    requires
        v.group.status != GroupStatus::Active,
    ensures
        v.contribute_error(payer, now) == Some(Error::GroupNotActive),
{
}

/// A member of an active group who has neither defaulted nor paid into the
/// current round is taken up to the end of the grace period, that moment
/// included.
pub proof fn law_payment_in_time_taken(v: LedgerView, i: int, now: u64)
    requires
        v.wf(),
        v.group.status == GroupStatus::Active,
        0 <= i < v.members.len(),
        v.members[i].status != MemberStatus::Defaulted,
        !has_paid(v.members[i]),
        !window_closed(v.current_deadline(), now),
    ensures
        v.contribute_error(v.members[i].address@, now) is None,
{
    lemma_position(v, i);
}

/// A member of an active group who has neither defaulted nor paid into the
/// current round and comes after the grace period is refused because the
/// window has closed, is marked as defaulted, and is refused as defaulted at
/// any later time.
pub proof fn law_late_payment_defaults(v: LedgerView, payer: Address, i: int, now: u64, later: u64)
    requires
        v.wf(),
        v.group.status == GroupStatus::Active,
        0 <= i < v.members.len(),
        payer@ == v.members[i].address@,
        v.members[i].status != MemberStatus::Defaulted,
        !has_paid(v.members[i]),
        window_closed(v.current_deadline(), now),
    ensures
        v.contribute_error(payer@, now) == Some(Error::PaymentWindowClosed),
        v.contributed(payer, now) == v.defaulted(i),
        v.contributed(payer, now).wf(),
        v.contributed(payer, now).members[i].status == MemberStatus::Defaulted,
        v.contributed(payer, now).contribute_error(payer@, later) == Some(Error::MemberDefaulted),
{
    lemma_position(v, i);
    lemma_defaulted_wf(v, i);
    lemma_position(v.defaulted(i), i);
}

/// A default is for good, and it stalls the group: whoever asks to
/// contribute afterwards, the defaulted member stays defaulted and the group
/// stays active in the same round, so that the defaulted member is refused
/// as defaulted ever after.
pub proof fn law_default_is_permanent(v: LedgerView, i: int, payer: Address, now: u64)
    requires
        v.wf(),
        0 <= i < v.members.len(),
        v.members[i].status == MemberStatus::Defaulted,
    ensures
        v.contributed(payer, now).wf(),
        v.contributed(payer, now).members[i].status == MemberStatus::Defaulted,
        v.contributed(payer, now).group == v.group,
{
    let w = v.contributed(payer, now);
    assert(v.member_ok(i));
    match v.contribute_error(payer@, now) {
        Some(Error::PaymentWindowClosed) => {
            let j = v.position(payer@).unwrap();
            lemma_defaulted_wf(v, j);
        },
        Some(_) => {},
        None => {
            let j = v.position(payer@).unwrap();
            let taken = v.recorded(j, payer, now);
            assert(v.round_ok(v.group.current_round - 1));
            lemma_paid_count_update(v.members, j, taken.members[j]);
            lemma_paid_count_bound(taken.members);
            assert(!has_paid(taken.members[i]));
            lemma_recorded_wf(v, j, payer, now);
        },
    }
}

/// Once every round has been paid out, every member has been paid once, in
/// the round after their rank, and has paid into every round.
pub proof fn law_completed_group(v: LedgerView, i: int)
    requires
        v.wf(),
        v.group.status == GroupStatus::Completed,
        0 <= i < v.members.len(),
    ensures
        v.members.len() == v.group.total_members,
        v.members[i].has_received_payout,
        v.members[i].payout_round == i + 1,
        v.members[i].total_contributed == v.group.contribution_amount * v.group.total_members,
        v.payouts_of((i + 1) as u32).len() == 1,
        v.payouts_of((i + 1) as u32)[0].recipient@ == v.members[i].address@,
{
    assert(v.member_ok(i));
    assert(v.round_ok(i));
}

/// A payout, once received, stays on the member's record whatever is asked
/// of the group afterwards.
pub proof fn law_payout_is_permanent(v: LedgerView, i: int, payer: Address, now: u64)
    requires
        v.wf(),
        0 <= i < v.members.len(),
        v.members[i].has_received_payout,
    ensures
        v.contributed(payer, now).members[i].has_received_payout,
        v.contributed(payer, now).members[i].payout_round == v.members[i].payout_round,
{
    assert(v.member_ok(i));
    if v.contribute_error(payer@, now) is None {
        let j = v.position(payer@).unwrap();
        if v.recorded(j, payer, now).collected() {
            lemma_round_completed_wf(v, j, payer, now);
        }
    }
}

/// A group only moves forward: admission leaves an open group open or makes
/// it active at round 1, a payment leaves an active group active, in the
/// same round or the next, or completes it at its last round, and nothing
/// else changes status or round.
pub proof fn law_group_moves_forward(v: LedgerView, who: Address, now: u64)
    requires
        v.wf(),
    ensures
        v.join_error(who@) is None ==> v.joined(who, now).group == v.group || (v.group.status
            == GroupStatus::Open && v.joined(who, now).group.status == GroupStatus::Active
            && v.joined(who, now).group.current_round == 1),
        v.contributed(who, now).group.status == v.group.status || (v.group.status
            == GroupStatus::Active && v.contributed(who, now).group.status
            == GroupStatus::Completed),
        v.contributed(who, now).group.current_round == v.group.current_round || (
        v.contributed(who, now).group.status == GroupStatus::Active && v.contributed(
            who,
            now,
        ).group.current_round == v.group.current_round + 1),
        v.group.status != GroupStatus::Active ==> v.contributed(who, now) == v,
{
    if v.contribute_error(who@, now) is None {
        let j = v.position(who@).unwrap();
        if v.recorded(j, who, now).collected() {
            lemma_round_completed_wf(v, j, who, now);
        }
    }
}

/// A request to join one group, granted or refused, leaves every other
/// group exactly as it was.
pub proof fn law_join_touches_one_group(
    c: ContractView,
    candidate: Address,
    id: Seq<char>,
    now: u64,
    other: int,
)
    requires
        c.wf(),
        0 <= other < c.ledgers.len(),
        c.ledgers[other].group.group_id@ != id,
    ensures
        c.joined(candidate, id, now).ledgers.len() == c.ledgers.len(),
        c.joined(candidate, id, now).ledgers[other] == c.ledgers[other],
{
}

/// A request to contribute to one group, taken or refused, leaves every
/// other group exactly as it was, and the record of who joined what.
pub proof fn law_contribute_touches_one_group(
    c: ContractView,
    payer: Address,
    id: Seq<char>,
    now: u64,
    other: int,
)
    requires
        c.wf(),
        0 <= other < c.ledgers.len(),
        c.ledgers[other].group.group_id@ != id,
    ensures
        c.contributed(payer, id, now).ledgers.len() == c.ledgers.len(),
        c.contributed(payer, id, now).ledgers[other] == c.ledgers[other],
        c.contributed(payer, id, now).joins == c.joins,
{
}

/// A new group leaves every group that was there exactly as it was.
pub proof fn law_create_touches_no_group(
    c: ContractView,
    fresh: LedgerView,
    admin: Seq<char>,
    other: int,
)
    requires
        0 <= other < c.ledgers.len(),
    ensures
        c.created(fresh, admin).ledgers.len() == c.ledgers.len() + 1,
        c.created(fresh, admin).ledgers[other] == c.ledgers[other],
        c.created(fresh, admin).ledgers.last() == fresh,
{
}

/// The groups listed for a user are exactly the groups that have the user on
/// their roster.
pub proof fn law_listed_groups_are_memberships(c: ContractView, user: Seq<char>, id: Seq<char>)
    requires
        c.wf(),
    ensures
        groups_of(c.joins, user).contains(id) <==> c.is_member(user, id),
{
    lemma_groups_of(c.joins, user, id);
    assert(c.listed(user, id) <==> c.is_member(user, id));
}

} // verus!
