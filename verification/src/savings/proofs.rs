//! Lemmas about the model: counting the members who have paid, and that
//! every operation keeps a ledger well formed.

use vstd::prelude::*;
use crate::savings::fees::{amounts_fit, payout_amount, total_pool};
use crate::savings::model::{has_paid, paid_count, LedgerView};
use crate::savings::types::{Address, GroupStatus, Member, MemberStatus};

verus! {

/// Nobody has paid: the count is zero.
pub proof fn lemma_paid_count_none(members: Seq<Member>)
    requires
        forall|i: int| 0 <= i < members.len() ==> !has_paid(#[trigger] members[i]),
    ensures
        paid_count(members) == 0,
    decreases members.len(),
{
    if members.len() > 0 {
        lemma_paid_count_none(members.drop_last());
    }
}

/// The count never exceeds the roster, and reaches it only when all have paid.
pub proof fn lemma_paid_count_bound(members: Seq<Member>)
    ensures
        paid_count(members) <= members.len(),
        paid_count(members) == members.len() ==> forall|i: int|
            0 <= i < members.len() ==> has_paid(#[trigger] members[i]),
    decreases members.len(),
{
    if members.len() > 0 {
        lemma_paid_count_bound(members.drop_last());
        if paid_count(members) == members.len() {
            assert forall|i: int| 0 <= i < members.len() implies has_paid(
                #[trigger] members[i],
            ) by {
                if i < members.len() - 1 {
                    assert(members.drop_last()[i] == members[i]);
                }
            }
        }
    }
}

/// Replacing one record changes the count by what that record changes.
pub proof fn lemma_paid_count_update(members: Seq<Member>, i: int, m: Member)
    requires
        0 <= i < members.len(),
    ensures
        paid_count(members.update(i, m)) == paid_count(members) - (if has_paid(members[i]) {
            1int
        } else {
            0int
        }) + (if has_paid(m) {
            1int
        } else {
            0int
        }),
    decreases members.len(),
{
    let after = members.update(i, m);
    if i == members.len() - 1 {
        assert(after.drop_last() =~= members.drop_last());
    } else {
        lemma_paid_count_update(members.drop_last(), i, m);
        assert(after.drop_last() =~= members.drop_last().update(i, m));
    }
}

/// On a roster without repeated addresses, an address stands where its
/// member stands.
pub proof fn lemma_position(v: LedgerView, i: int)
    requires
        v.shape(),
        0 <= i < v.members.len(),
    ensures
        v.position(v.members[i].address@) == Some(i),
{
    let a = v.members[i].address@;
    assert(v.has_member(a));
    let j = choose|j: int| 0 <= j < v.members.len() && (#[trigger] v.members[j]).address@ == a;
    assert(j == i);
}

/// Admission keeps a ledger well formed.
pub proof fn lemma_joined_wf(v: LedgerView, candidate: Address, now: u64)
    requires
        v.wf(),
        v.join_error(candidate@) is None,
    ensures
        v.joined(candidate, now).wf(),
{
    let w = v.joined(candidate, now);
    let n = v.members.len() as int;
    assert(v.group.current_round == 0);
    assert(v.settled() == 0 && w.settled() == 0);
    assert forall|i: int| 0 <= i < n implies !has_paid(#[trigger] w.members[i]) && w.members[i]
        == v.members[i] by {
        assert(v.member_ok(i));
    }
    lemma_paid_count_none(w.members);
    assert forall|i: int, j: int| 0 <= i < j < w.members.len() implies (
    #[trigger] w.members[i]).address@ != (#[trigger] w.members[j]).address@ by {
        if j == n {
            assert(v.members[i].address@ != candidate@);
        }
    }
    assert forall|i: int| 0 <= i < w.members.len() implies #[trigger] w.member_ok(i) by {
        if i < n {
            assert(v.member_ok(i));
        }
        assert(v.group.contribution_amount * 0 == 0);
    }
    assert forall|k: int| 0 <= k < w.rounds.len() implies #[trigger] w.round_ok(k) by {
        assert(v.round_ok(k));
    }
}

/// A payout is never negative and never more than the pool.
pub proof fn lemma_payout_range(contribution_amount: i128, total_members: u32, fee_bps: u32)
    requires
        amounts_fit(contribution_amount, total_members, fee_bps),
        fee_bps <= 10_000,
    ensures
        0 <= payout_amount(contribution_amount, total_members, fee_bps) <= total_pool(
            contribution_amount,
            total_members,
        ) <= i128::MAX,
{
    let pool = total_pool(contribution_amount, total_members);
    assert(0 <= pool) by (nonlinear_arith)
        requires
            pool == contribution_amount * total_members,
            0 <= contribution_amount,
            0 <= total_members,
    ;
    assert(0 <= pool * fee_bps <= pool * 10_000) by (nonlinear_arith)
        requires
            0 <= pool,
            0 <= fee_bps <= 10_000,
    ;
}

/// Members keep their place while the roster keeps its addresses.
pub proof fn lemma_same_roster(v: LedgerView, w: LedgerView)
    requires
        w.members.len() == v.members.len(),
        forall|i: int|
            0 <= i < v.members.len() ==> (#[trigger] w.members[i]).address == v.members[i].address,
    ensures
        forall|a: Seq<char>| v.has_member(a) ==> w.has_member(a),
{
    assert forall|a: Seq<char>| v.has_member(a) implies w.has_member(a) by {
        let i = choose|i: int|
            0 <= i < v.members.len() && (#[trigger] v.members[i]).address@ == a;
        assert(w.members[i].address@ == a);
    }
}

/// Marking a member who has not paid as defaulted keeps a ledger well formed.
pub proof fn lemma_defaulted_wf(v: LedgerView, i: int)
    requires
        v.wf(),
        v.in_progress(),
        0 <= i < v.members.len(),
        !has_paid(v.members[i]),
    ensures
        v.defaulted(i).wf(),
{
    let w = v.defaulted(i);
    lemma_same_roster(v, w);
    lemma_paid_count_update(v.members, i, w.members[i]);
    assert(w.settled() == v.settled());
    assert forall|j: int| 0 <= j < w.members.len() implies #[trigger] w.member_ok(j) by {
        assert(v.member_ok(j));
    }
    assert forall|k: int| 0 <= k < w.rounds.len() implies #[trigger] w.round_ok(k) by {
        assert(v.round_ok(k));
        let list = w.rounds[k].contributions;
        if k >= v.settled() && k == v.group.current_round - 1 {
            assert forall|j: int, m: int|
                0 <= j < list.len() && 0 <= m < w.members.len() && (#[trigger] list[j]).member@
                    == (#[trigger] w.members[m]).address@ implies has_paid(w.members[m]) by {
                assert(v.members[m].address@ == list[j].member@);
            }
        }
    }
}

/// The sum credited to a member who pays into the current round fits the
/// machine's integers.
pub proof fn lemma_credit_fits(v: LedgerView, i: int)
    requires
        v.wf(),
        v.in_progress(),
        0 <= i < v.members.len(),
        !has_paid(v.members[i]),
    ensures
        v.members[i].total_contributed + v.group.contribution_amount
            == v.group.contribution_amount * (v.settled() + 1),
        0 <= v.members[i].total_contributed + v.group.contribution_amount <= i128::MAX,
{
    assert(v.member_ok(i));
    let a = v.group.contribution_amount as int;
    let s = v.settled();
    let t = v.group.total_members as int;
    assert(a * (s + 0) + a == a * (s + 1)) by (nonlinear_arith);
    assert(0 <= a * (s + 1) <= a * t) by (nonlinear_arith)
        requires
            0 <= a,
            0 <= s,
            s + 1 <= t,
    ;
}

/// What recording a payment changes and what it leaves alone.
proof fn lemma_recorded_rounds(v: LedgerView, i: int, payer: Address, now: u64)
    requires
        v.wf(),
        v.group.status == GroupStatus::Active,
        0 <= i < v.members.len(),
        payer@ == v.members[i].address@,
        !has_paid(v.members[i]),
    ensures
        ({
            let w = v.recorded(i, payer, now);
            let r = v.group.current_round - 1;
            &&& w.shape()
            &&& paid_count(w.members) == paid_count(v.members) + 1
            &&& w.rounds[r].contributions.len() == paid_count(w.members)
            &&& w.rounds[r].payouts.len() == 0
            &&& forall|k: int| 0 <= k < w.rounds.len() ==> #[trigger] w.contributions_ok(k)
            &&& forall|k: int| 0 <= k < w.rounds.len() && k != r ==> w.rounds[k] == v.rounds[k]
            &&& forall|k: int| 0 <= k < r ==> #[trigger] w.round_settled(k)
            &&& forall|m: int| 0 <= m < w.members.len() ==> #[trigger] w.member_ok(m)
            &&& forall|j: int, m: int|
                0 <= j < w.rounds[r].contributions.len() && 0 <= m < w.members.len() && (
                #[trigger] w.rounds[r].contributions[j]).member@ == (
                #[trigger] w.members[m]).address@ ==> has_paid(w.members[m])
        }),
{
    let w = v.recorded(i, payer, now);
    let r = v.group.current_round - 1;
    lemma_same_roster(v, w);
    lemma_credit_fits(v, i);
    lemma_paid_count_update(v.members, i, w.members[i]);
    assert(v.round_ok(r));
    assert(w.settled() == v.settled());
    let old_list = v.rounds[r].contributions;
    let list = w.rounds[r].contributions;
    assert forall|j: int, m: int|
        0 <= j < list.len() && 0 <= m < w.members.len() && (#[trigger] list[j]).member@ == (
        #[trigger] w.members[m]).address@ implies has_paid(w.members[m]) by {
        if j < old_list.len() {
            assert(old_list[j].member@ == v.members[m].address@);
        } else {
            assert(v.members[m].address@ == v.members[i].address@);
        }
    }
    assert forall|k: int| 0 <= k < w.rounds.len() implies #[trigger] w.contributions_ok(k) by {
        assert(v.round_ok(k));
        if k == r {
            assert(w.has_member(payer@)) by {
                assert(w.members[i].address@ == payer@);
            }
            assert forall|a: int, b: int| 0 <= a < b < list.len() implies (
            #[trigger] list[a]).member@ != (#[trigger] list[b]).member@ by {
                if b == old_list.len() {
                    if old_list[a].member@ == payer@ {
                        assert(old_list[a].member@ == v.members[i].address@);
                    }
                }
            }
        }
    }
    assert forall|k: int| 0 <= k < r implies #[trigger] w.round_settled(k) by {
        assert(v.round_ok(k));
    }
    assert forall|m: int| 0 <= m < w.members.len() implies #[trigger] w.member_ok(m) by {
        assert(v.member_ok(m));
    }
}

/// Recording a payment that is not the round's last keeps a ledger well
/// formed.
pub proof fn lemma_recorded_wf(v: LedgerView, i: int, payer: Address, now: u64)
    requires
        v.wf(),
        v.group.status == GroupStatus::Active,
        0 <= i < v.members.len(),
        payer@ == v.members[i].address@,
        !has_paid(v.members[i]),
        !v.recorded(i, payer, now).collected(),
    ensures
        v.recorded(i, payer, now).wf(),
{
    let w = v.recorded(i, payer, now);
    let r = v.group.current_round - 1;
    lemma_recorded_rounds(v, i, payer, now);
    lemma_paid_count_bound(w.members);
    assert forall|k: int| 0 <= k < w.rounds.len() implies #[trigger] w.round_ok(k) by {
        assert(v.round_ok(k));
        assert(w.contributions_ok(k));
        if k < r {
            assert(w.round_settled(k));
        }
    }
}

/// Recording the round's last payment leaves a round that has a recipient,
/// the member whose rank is the round's place in the rotation, and paying it
/// out and ending it leaves a well-formed ledger.
pub proof fn lemma_round_completed_wf(v: LedgerView, i: int, payer: Address, now: u64)
    requires
        v.wf(),
        v.group.status == GroupStatus::Active,
        0 <= i < v.members.len(),
        payer@ == v.members[i].address@,
        !has_paid(v.members[i]),
        v.recorded(i, payer, now).collected(),
    ensures
        v.recorded(i, payer, now).recipient() == Some(v.group.current_round - 1),
        v.recorded(i, payer, now).distributed(now).wf(),
{
    let s = v.recorded(i, payer, now);
    let r = v.group.current_round - 1;
    lemma_recorded_rounds(v, i, payer, now);
    lemma_paid_count_bound(s.members);
    assert(v.member_ok(r));
    assert(s.recipient() == Some(r));
    let p = s.paid_out(r, now);
    let e = p.round_ended();
    assert(e == s.distributed(now));
    lemma_payout_range(
        v.group.contribution_amount,
        v.group.total_members,
        v.group.platform_fee_percent,
    );
    assert(e.settled() == v.group.current_round);
    assert(e.members.len() == v.members.len());
    assert forall|m: int| 0 <= m < e.members.len() implies !has_paid(#[trigger] e.members[m])
        && e.members[m].address == v.members[m].address && e.members[m].status
        != MemberStatus::Defaulted by {
        assert(has_paid(s.members[m]));
    }
    lemma_paid_count_none(e.members);
    lemma_same_roster(v, e);
    lemma_same_roster(s, e);
    assert forall|m: int| 0 <= m < e.members.len() implies #[trigger] e.member_ok(m) by {
        assert(s.member_ok(m));
        assert(has_paid(s.members[m]));
        assert(v.group.contribution_amount * (v.settled() + 1) == v.group.contribution_amount
            * (e.settled() + 0));
    }
    assert forall|k: int| 0 <= k < e.rounds.len() implies #[trigger] e.round_ok(k) by {
        assert(v.round_ok(k));
        assert(s.contributions_ok(k));
        assert(e.rounds[k].contributions == s.rounds[k].contributions);
        if k < r {
            assert(s.round_settled(k));
        }
    }
}

/// Admission adds the candidate to the roster and nobody else, and leaves
/// the group's identifier alone.
pub proof fn lemma_joined_roster(v: LedgerView, candidate: Address, now: u64)
    ensures
        v.joined(candidate, now).group.group_id == v.group.group_id,
        forall|a: Seq<char>|
            v.joined(candidate, now).has_member(a) <==> (v.has_member(a) || a == candidate@),
{
    let w = v.joined(candidate, now);
    let n = v.members.len() as int;
    assert forall|a: Seq<char>| w.has_member(a) <==> (v.has_member(a) || a == candidate@) by {
        if w.has_member(a) {
            let i = choose|i: int|
                0 <= i < w.members.len() && (#[trigger] w.members[i]).address@ == a;
            if i < n {
                assert(v.members[i].address@ == a);
            }
        }
        if v.has_member(a) {
            let i = choose|i: int|
                0 <= i < v.members.len() && (#[trigger] v.members[i]).address@ == a;
            assert(w.members[i].address@ == a);
        }
        if a == candidate@ {
            assert(w.members[n].address@ == a);
        }
    }
}

/// A request to contribute, taken or refused, leaves the roster's addresses
/// and the group's identifier alone.
pub proof fn lemma_contributed_roster(v: LedgerView, payer: Address, now: u64)
    requires
        v.wf(),
    ensures
        v.contributed(payer, now).group.group_id == v.group.group_id,
        v.contributed(payer, now).members.len() == v.members.len(),
        forall|i: int|
            0 <= i < v.members.len() ==> (#[trigger] v.contributed(payer, now).members[i]).address
                == v.members[i].address,
        forall|a: Seq<char>| v.contributed(payer, now).has_member(a) <==> v.has_member(a),
{
    let w = v.contributed(payer, now);
    assert(w.members.len() == v.members.len() && forall|i: int|
        0 <= i < v.members.len() ==> (#[trigger] w.members[i]).address == v.members[i].address);
    lemma_same_roster(v, w);
    lemma_same_roster(w, v);
}

} // verus!
