//! The ledger of one savings group: its settings, its roster and what each
//! round has recorded, with the operations that move it through its life.

use vstd::prelude::*;
use crate::savings::fees::round_payout;
use crate::savings::model::{
    creation_error, empty_round, has_paid, new_group, new_member, paid_count, representable,
    LedgerView, RoundView, PLATFORM_FEE_BPS,
};
use crate::savings::proofs::{
    lemma_credit_fits, lemma_defaulted_wf, lemma_joined_wf, lemma_recorded_wf,
    lemma_round_completed_wf,
};
use crate::savings::schedule::{calculate_deadline, deadline, payment_window_closed};
use crate::savings::types::{
    Address, Contribution, Error, Frequency, GroupStatus, Member, MemberStatus, Payout,
    SavingsGroup,
};
use crate::savings::validation::{count_paid, roster_valid, settings_valid, validate_creation};

verus! {

/// What one round has recorded.
pub struct Round {
    contributions: Vec<Contribution>,
    payouts: Vec<Payout>,
}

impl View for Round {
    type V = RoundView;

    closed spec fn view(&self) -> RoundView {
        RoundView { contributions: self.contributions@, payouts: self.payouts@ }
    }
}

impl Round {
    /// The record of a round with these contributions and payouts.
    pub fn new(contributions: Vec<Contribution>, payouts: Vec<Payout>) -> (round: Round)
        ensures
            round@ == (RoundView { contributions: contributions@, payouts: payouts@ }),
    {
        Round { contributions, payouts }
    }
}

/// One savings group: the engine beneath the contract. Its operations act
/// for whoever is named in them; that the caller is that principal is for
/// the contract to require.
pub struct GroupLedger {
    group: SavingsGroup,
    members: Vec<Member>,
    rounds: Vec<Round>,
}

impl View for GroupLedger {
    type V = LedgerView;

    closed spec fn view(&self) -> LedgerView {
        LedgerView {
            group: self.group,
            members: self.members@,
            rounds: self.rounds@.map_values(|r: Round| r@),
        }
    }
}

impl GroupLedger {
    /// Whether the ledger obeys the rules of a group between operations.
    pub open spec fn wf(&self) -> bool {
        self@.wf()
    }

    /// A ledger with these settings, nobody on the roster yet, and an empty
    /// record for every round.
    fn empty(group: SavingsGroup) -> (ledger: GroupLedger)
        ensures
            ledger@ == (LedgerView {
                group,
                members: Seq::empty(),
                rounds: Seq::new(group.total_members as nat, |k: int| empty_round()),
            }),
    {
        let mut rounds: Vec<Round> = Vec::new();
        let mut k: u32 = 0;
        while k < group.total_members
            invariant
                k <= group.total_members,
                rounds@.len() == k,
                forall|j: int| 0 <= j < k ==> (#[trigger] rounds@[j])@ == empty_round(),
            decreases group.total_members - k,
        {
            rounds.push(Round { contributions: Vec::new(), payouts: Vec::new() });
            k += 1;
        }
        let ledger = GroupLedger { group, members: Vec::new(), rounds };
        assert(ledger@.rounds =~= Seq::new(group.total_members as nat, |k: int| empty_round()));
        ledger
    }

    /// Puts the admin of a group just opened on its roster, first in the
    /// rotation.
    fn add_admin_to_group(&mut self, member: Address, now: u64)
        requires
            old(self)@.members.len() == 0,
            old(self)@.group.total_members >= 1,
        ensures
            final(self)@ == (LedgerView {
                members: seq![new_member(member, 0, now)],
                ..old(self)@
            }),
    {
        let member_count: u32 = self.members.len() as u32;
        let joined = Member {
            address: member,
            join_timestamp: now,
            join_order: member_count,
            status: MemberStatus::Active,
            total_contributed: 0,
            has_received_payout: false,
            payout_round: 0,
        };
        self.members.push(joined);
        assert(self@.members =~= seq![new_member(member, 0, now)]);
    }

    /// Opens a group with these settings at `now`, with `admin` as its first
    /// member. The settings are refused if the contribution is under the
    /// minimum, else if the group would have fewer than three or more than
    /// twenty members, else if the start is not after `now`.
    pub fn create_group(
        admin: Address,
        group_id: String,
        name: String,
        contribution_amount: i128,
        total_members: u32,
        frequency: Frequency,
        start_timestamp: u64,
        is_public: bool,
        now: u64,
    ) -> (result: Result<GroupLedger, Error>)
        requires
            creation_error(contribution_amount, total_members, start_timestamp, now) is None
                ==> representable(
                contribution_amount,
                total_members,
                PLATFORM_FEE_BPS,
                start_timestamp,
                frequency,
            ),
        ensures
            match result {
                Ok(ledger) => {
                    &&& creation_error(contribution_amount, total_members, start_timestamp, now)
                        is None
                    &&& ledger.wf()
                    &&& ledger@ == LedgerView::fresh(
                        new_group(
                            admin,
                            group_id,
                            name,
                            contribution_amount,
                            total_members,
                            frequency,
                            start_timestamp,
                            is_public,
                        ),
                        admin,
                        now,
                    )
                },
                Err(e) => creation_error(contribution_amount, total_members, start_timestamp, now)
                    == Some(e),
            },
    {
        match validate_creation(contribution_amount, total_members, start_timestamp, now) {
            Some(refusal) => {
                return Err(refusal);
            },
            None => {},
        }
        let group = SavingsGroup {
            group_id,
            admin: admin.clone(),
            name,
            contribution_amount,
            total_members,
            frequency,
            start_timestamp,
            status: GroupStatus::Open,
            is_public,
            current_round: 0,
            platform_fee_percent: PLATFORM_FEE_BPS,
        };
        let mut ledger = GroupLedger::empty(group);
        ledger.add_admin_to_group(admin, now);
        proof {
            let v = ledger@;
            assert(paid_count(v.members.drop_last()) == 0);
            assert(v.member_ok(0)) by {
                assert(v.group.contribution_amount * 0 == 0);
            }
            assert forall|k: int| 0 <= k < v.rounds.len() implies #[trigger] v.round_ok(k) by {}
        }
        Ok(ledger)
    }

    /// Admits `member` at `now`, last in the rotation. When that fills the
    /// group, its first round opens. A member is refused as one already,
    /// whatever the state of the group; a stranger is refused if the group is
    /// full, else if it is not open.
    pub fn join_group(&mut self, member: Address, now: u64) -> (result: Result<(), Error>)
        requires
            old(self).wf(),
        ensures
            final(self).wf(),
            match result {
                Ok(()) => {
                    &&& old(self)@.join_error(member@) is None
                    &&& final(self)@ == old(self)@.joined(member, now)
                },
                Err(e) => {
                    &&& old(self)@.join_error(member@) == Some(e)
                    &&& final(self)@ == old(self)@
                },
            },
    {
        if self.find_member(&member).is_some() {
            return Err(Error::AlreadyMember);
        }
        let member_count: u32 = self.members.len() as u32;
        if member_count >= self.group.total_members {
            return Err(Error::GroupIsFull);
        }
        if self.group.status != GroupStatus::Open {
            return Err(Error::GroupNotAcceptingMembers);
        }
        proof {
            lemma_joined_wf(self@, member, now);
        }
        let joined = Member {
            address: member,
            join_timestamp: now,
            join_order: member_count,
            status: MemberStatus::Active,
            total_contributed: 0,
            has_received_payout: false,
            payout_round: 0,
        };
        self.members.push(joined);
        let new_count: u32 = member_count + 1;
        if new_count == self.group.total_members {
            self.group.status = GroupStatus::Active;
            self.group.current_round = 1;
        }
        assert(self@ == old(self)@.joined(member, now));
        Ok(())
    }

    /// Takes the payment of `member` into the current round at `now`. The
    /// payment is refused if the group is not active, else if `member` is not
    /// on the roster, else if it has defaulted, else if it has paid into this
    /// round already, else if `now` lies beyond the round's deadline and its
    /// grace period: that refusal marks the member as defaulted for good, and
    /// no other refusal changes anything. The payment that is the round's
    /// last pays the round out and ends it.
    pub fn contribute(&mut self, member: Address, now: u64) -> (result: Result<(), Error>)
        requires
            old(self).wf(),
        ensures
            final(self).wf(),
            final(self)@ == old(self)@.contributed(member, now),
            result == match old(self)@.contribute_error(member@, now) {
                Some(e) => Err::<(), Error>(e),
                None => Ok::<(), Error>(()),
            },
    {
        if self.group.status != GroupStatus::Active {
            return Err(Error::GroupNotActive);
        }
        let i = match self.find_member(&member) {
            Some(i) => i,
            None => {
                return Err(Error::NotMember);
            },
        };
        if self.members[i].status == MemberStatus::Defaulted {
            return Err(Error::MemberDefaulted);
        }
        if self.members[i].status == MemberStatus::PaidCurrentRound {
            return Err(Error::AlreadyPaidThisRound);
        }
        let current_round: u32 = self.group.current_round;
        assert(deadline(self.group.start_timestamp, self.group.frequency, current_round)
            <= deadline(
            self.group.start_timestamp,
            self.group.frequency,
            self.group.total_members,
        )) by (nonlinear_arith)
            requires
                current_round <= self.group.total_members,
        ;
        let due: u64 = calculate_deadline(&self.group, current_round);
        if payment_window_closed(due, now) {
            proof {
                lemma_defaulted_wf(self@, i as int);
            }
            self.members[i].status = MemberStatus::Defaulted;
            assert(self@.members =~= old(self)@.defaulted(i as int).members);
            return Err(Error::PaymentWindowClosed);
        }
        proof {
            lemma_credit_fits(self@, i as int);
        }
        let contribution = Contribution {
            member,
            amount: self.group.contribution_amount,
            round: current_round,
            timestamp: now,
        };
        self.rounds[(current_round - 1) as usize].contributions.push(contribution);
        self.members[i].status = MemberStatus::PaidCurrentRound;
        self.members[i].total_contributed += self.group.contribution_amount;
        assert(self@.rounds =~= old(self)@.recorded(i as int, member, now).rounds);
        assert(self@.members =~= old(self)@.recorded(i as int, member, now).members);
        assert(self@ == old(self)@.recorded(i as int, member, now));
        if self.all_members_paid(current_round) {
            proof {
                lemma_round_completed_wf(old(self)@, i as int, member, now);
            }
            match self.distribute_payout(now) {
                Ok(()) => {},
                Err(e) => {
                    return Err(e);
                },
            }
        } else {
            proof {
                lemma_recorded_wf(old(self)@, i as int, member, now);
            }
        }
        Ok(())
    }

    /// Whether `round` has one contribution for each member.
    fn all_members_paid(&self, round: u32) -> (all: bool)
        requires
            1 <= round <= self@.rounds.len(),
        ensures
            all == (self@.rounds[round - 1].contributions.len() == self@.members.len()),
    {
        self.rounds[(round - 1) as usize].contributions.len() == self.members.len()
    }

    /// The address of the member whom `round` pays: the first on the roster
    /// who joined at the round's place in the rotation and has not been paid.
    fn get_next_payout_recipient(&self, round: u32) -> (result: Result<Address, Error>)
        requires
            self@.shape(),
            round >= 1,
            round == self@.group.current_round,
        ensures
            match result {
                Ok(address) => {
                    &&& self@.recipient() == Some(round - 1)
                    &&& address == self@.members[round - 1].address
                },
                Err(e) => e == Error::NoRecipientFound && self@.recipient() is None,
            },
    {
        let mut i: usize = 0;
        while i < self.members.len()
            invariant
                self@.shape(),
                round >= 1,
                round == self@.group.current_round,
                i <= self.members@.len(),
                forall|j: int|
                    0 <= j < i ==> !((#[trigger] self.members@[j]).join_order == round - 1
                        && !self.members@[j].has_received_payout),
            decreases self.members@.len() - i,
        {
            if self.members[i].join_order == round - 1 && !self.members[i].has_received_payout {
                assert(self@.members[i as int].join_order == i);
                return Ok(self.members[i].address.clone());
            }
            i += 1;
        }
        Err(Error::NoRecipientFound)
    }

    /// Ends the current round: whoever had paid owes again, and the group
    /// moves to the next round, or is completed after its last.
    fn end_round(&mut self)
        requires
            old(self)@.shape(),
        ensures
            final(self)@ == old(self)@.round_ended(),
    {
        let mut i: usize = 0;
        while i < self.members.len()
            invariant
                i <= self.members@.len(),
                self.members@.len() == old(self).members@.len(),
                self.group == old(self).group,
                self.rounds == old(self).rounds,
                forall|j: int|
                    0 <= j < i ==> #[trigger] self.members@[j] == old(self)@.round_ended().members[j],
                forall|j: int|
                    i <= j < self.members@.len() ==> #[trigger] self.members@[j] == old(
                        self,
                    ).members@[j],
            decreases self.members@.len() - i,
        {
            if self.members[i].status == MemberStatus::PaidCurrentRound {
                self.members[i].status = MemberStatus::Active;
            }
            i += 1;
        }
        if self.group.current_round >= self.group.total_members {
            self.group.status = GroupStatus::Completed;
        } else {
            self.group.current_round += 1;
        }
        assert(self@.members =~= old(self)@.round_ended().members);
    }

    /// Pays out the current round, fully collected, and ends it. Without a
    /// member to pay, nothing changes.
    fn distribute_payout(&mut self, now: u64) -> (result: Result<(), Error>)
        requires
            old(self)@.shape(),
            old(self)@.group.current_round >= 1,
        ensures
            final(self)@ == old(self)@.distributed(now),
            result == match old(self)@.recipient() {
                Some(_) => Ok::<(), Error>(()),
                None => Err::<(), Error>(Error::NoRecipientFound),
            },
    {
        let current_round: u32 = self.group.current_round;
        let payout_amount: i128 = round_payout(&self.group);
        let recipient = match self.get_next_payout_recipient(current_round) {
            Ok(address) => address,
            Err(e) => {
                return Err(e);
            },
        };
        let k = match self.find_member(&recipient) {
            Some(k) => k,
            None => {
                assert(self.members@[current_round - 1].address@ == recipient@);
                return Err(Error::RecipientNotFound);
            },
        };
        assert(k == current_round - 1) by {
            assert(self@.members[k as int].address@ == self@.members[current_round
                - 1].address@);
        }
        let payout = Payout {
            recipient,
            amount: payout_amount,
            round: current_round,
            timestamp: now,
        };
        self.rounds[(current_round - 1) as usize].payouts.push(payout);
        self.members[k].has_received_payout = true;
        self.members[k].payout_round = current_round;
        self.members[k].status = MemberStatus::ReceivedPayout;
        assert(self@.rounds =~= old(self)@.paid_out(k as int, now).rounds);
        assert(self@.members =~= old(self)@.paid_out(k as int, now).members);
        assert(self@ == old(self)@.paid_out(k as int, now));
        self.end_round();
        Ok(())
    }

    /// The group's identifier.
    pub fn group_id(&self) -> (id: &String)
        ensures
            *id == self@.group.group_id,
    {
        &self.group.group_id
    }

    /// Whether `address` is on the roster.
    pub fn has_member(&self, address: &Address) -> (found: bool)
        ensures
            found == self@.has_member(address@),
    {
        self.find_member(address).is_some()
    }

    /// The group's settings and where it stands.
    pub fn get_group(&self) -> (group: SavingsGroup)
        ensures
            group == self@.group,
    {
        self.group.clone()
    }

    /// The record of `member`, if it is on the roster.
    pub fn get_member(&self, member: &Address) -> (result: Result<Member, Error>)
        requires
            self.wf(),
        ensures
            match result {
                Ok(record) => {
                    &&& self@.position(member@) matches Some(i)
                    &&& record == self@.members[i]
                },
                Err(e) => e == Error::NotMember && !self@.has_member(member@),
            },
    {
        match self.find_member(member) {
            Some(i) => Ok(self.members[i].clone()),
            None => Err(Error::NotMember),
        }
    }

    /// The addresses on the roster, in order of admission.
    pub fn get_members(&self) -> (roster: Vec<Address>)
        ensures
            roster@ == self@.roster(),
    {
        let mut roster: Vec<Address> = Vec::new();
        let mut i: usize = 0;
        while i < self.members.len()
            invariant
                i <= self.members@.len(),
                roster@.len() == i,
                forall|j: int| 0 <= j < i ==> #[trigger] roster@[j] == self.members@[j].address,
            decreases self.members@.len() - i,
        {
            roster.push(self.members[i].address.clone());
            i += 1;
        }
        assert(roster@ =~= self@.roster());
        roster
    }

    /// What was paid into `round`, in order of payment; nothing for a round
    /// the group does not have.
    pub fn get_round_contributions(&self, round: u32) -> (list: Vec<Contribution>)
        ensures
            list@ == self@.contributions_of(round),
    {
        if round == 0 || round as usize > self.rounds.len() {
            return Vec::new();
        }
        let list = self.rounds[(round - 1) as usize].contributions.clone();
        assert(list@ =~= self@.contributions_of(round));
        list
    }

    /// What `round` paid out; nothing for a round the group does not have.
    pub fn get_round_payouts(&self, round: u32) -> (list: Vec<Payout>)
        ensures
            list@ == self@.payouts_of(round),
    {
        if round == 0 || round as usize > self.rounds.len() {
            return Vec::new();
        }
        let list = self.rounds[(round - 1) as usize].payouts.clone();
        assert(list@ =~= self@.payouts_of(round));
        list
    }

    /// When `round` falls due. A round the group does not have is answered
    /// as a group that is not found.
    pub fn get_round_deadline(&self, round: u32) -> (result: Result<u64, Error>)
        requires
            self.wf(),
        ensures
            match result {
                Ok(due) => self@.deadline_of(round) == Some(due as int),
                Err(e) => e == Error::GroupNotFound && self@.deadline_of(round) is None,
            },
    {
        if round == 0 || round > self.group.total_members {
            return Err(Error::GroupNotFound);
        }
        assert(deadline(self.group.start_timestamp, self.group.frequency, round) <= deadline(
            self.group.start_timestamp,
            self.group.frequency,
            self.group.total_members,
        )) by (nonlinear_arith)
            requires
                round <= self.group.total_members,
        ;
        Ok(calculate_deadline(&self.group, round))
    }

    /// How many rounds have been paid out.
    fn settled(&self) -> (done: u32)
        ensures
            done == self@.settled(),
    {
        if self.group.status == GroupStatus::Completed {
            self.group.current_round
        } else if self.group.current_round == 0 {
            0
        } else {
            self.group.current_round - 1
        }
    }

    /// Whether a round is being collected.
    fn in_progress(&self) -> (collecting: bool)
        ensures
            collecting == self@.in_progress(),
    {
        self.group.current_round > 0 && self.group.status != GroupStatus::Completed
    }

    /// Whether the status and round of the group agree with its roster.
    fn phase_valid(&self) -> (ok: bool)
        ensures
            ok == self@.phase_ok(),
    {
        let full: bool = self.members.len() == self.group.total_members as usize;
        if self.group.current_round == 0 {
            if self.members.len() >= self.group.total_members as usize {
                return false;
            }
            if self.group.status != GroupStatus::Open && self.group.status != GroupStatus::Paused {
                return false;
            }
        } else {
            if !full || self.group.status == GroupStatus::Open {
                return false;
            }
        }
        if self.group.status == GroupStatus::Completed && self.group.current_round
            != self.group.total_members {
            return false;
        }
        true
    }

    /// Whether the record of the member of rank `i` agrees with the rounds
    /// played.
    fn member_valid(&self, i: usize) -> (ok: bool)
        requires
            self@.shape(),
            i < self@.members.len(),
        ensures
            ok == self@.member_ok(i as int),
    {
        let done: u32 = self.settled();
        let collecting: bool = self.in_progress();
        let m = &self.members[i];
        let paid: bool = m.status == MemberStatus::PaidCurrentRound;
        if m.has_received_payout != (i < done as usize) {
            return false;
        }
        if i < done as usize {
            if m.payout_round as usize != i + 1 {
                return false;
            }
        } else if m.payout_round != 0 {
            return false;
        }
        if paid && !collecting {
            return false;
        }
        if m.status == MemberStatus::Defaulted && !collecting {
            return false;
        }
        let rounds_paid: u32 = if paid {
            done + 1
        } else {
            done
        };
        assert(0 <= self.group.contribution_amount * rounds_paid <= i128::MAX)
            by (nonlinear_arith)
            requires
                0 <= self.group.contribution_amount,
                0 <= rounds_paid <= self.group.total_members,
                self.group.contribution_amount * self.group.total_members <= i128::MAX,
        ;
        m.total_contributed == self.group.contribution_amount * (rounds_paid as i128)
    }

    /// Whether the contributions recorded for round `k + 1` are well formed.
    fn contributions_valid(&self, k: usize) -> (ok: bool)
        requires
            self@.shape(),
            k < self@.rounds.len(),
        ensures
            ok == self@.contributions_ok(k as int),
    {
        let list = &self.rounds[k].contributions;
        let mut j: usize = 0;
        while j < list.len()
            invariant
                self@.shape(),
                k < self@.rounds.len(),
                list@ == self@.rounds[k as int].contributions,
                j <= list@.len(),
                forall|a: int|
                    0 <= a < j ==> {
                        &&& (#[trigger] list@[a]).round == k + 1
                        &&& list@[a].amount == self@.group.contribution_amount
                        &&& self@.has_member(list@[a].member@)
                    },
                forall|a: int, b: int|
                    0 <= a < b < j ==> (#[trigger] list@[a]).member@ != (
                    #[trigger] list@[b]).member@,
            decreases list@.len() - j,
        {
            if list[j].round as usize != k + 1 {
                return false;
            }
            if list[j].amount != self.group.contribution_amount {
                return false;
            }
            if self.find_member(&list[j].member).is_none() {
                return false;
            }
            let mut a: usize = 0;
            while a < j
                invariant
                    a <= j < list@.len(),
                    k < self@.rounds.len(),
                    list@ == self@.rounds[k as int].contributions,
                    forall|b: int|
                        0 <= b < a ==> (#[trigger] list@[b]).member@ != list@[j as int].member@,
                decreases j - a,
            {
                if list[a].member == list[j].member {
                    return false;
                }
                a += 1;
            }
            j += 1;
        }
        true
    }

    /// Whether round `k + 1` is recorded as paid out in full.
    fn round_settled_valid(&self, k: usize) -> (ok: bool)
        requires
            self@.shape(),
            k < self@.rounds.len(),
            k < self@.members.len(),
        ensures
            ok == self@.round_settled(k as int),
    {
        let round = &self.rounds[k];
        if round.contributions.len() != self.members.len() || round.payouts.len() != 1 {
            return false;
        }
        let payout_amount: i128 = round_payout(&self.group);
        round.payouts[0].recipient == self.members[k].address && round.payouts[0].amount
            == payout_amount && round.payouts[0].round as usize == k + 1
    }

    /// Whether round `k + 1` is recorded as the one being collected.
    fn round_collecting_valid(&self, k: usize) -> (ok: bool)
        requires
            self@.shape(),
            k < self@.rounds.len(),
        ensures
            ok == self@.round_collecting(k as int),
    {
        let round = &self.rounds[k];
        let paid: usize = count_paid(&self.members);
        if round.contributions.len() != paid || round.contributions.len() >= self.members.len()
            || round.payouts.len() != 0 {
            return false;
        }
        let list = &round.contributions;
        let mut j: usize = 0;
        while j < list.len()
            invariant
                self@.shape(),
                list@ == self@.rounds[k as int].contributions,
                j <= list@.len(),
                forall|a: int, i: int|
                    0 <= a < j && 0 <= i < self@.members.len() && (#[trigger] list@[a]).member@ == (
                    #[trigger] self@.members[i]).address@ ==> has_paid(self@.members[i]),
            decreases list@.len() - j,
        {
            match self.find_member(&list[j].member) {
                Some(i) => {
                    if self.members[i].status != MemberStatus::PaidCurrentRound {
                        return false;
                    }
                    assert forall|m: int|
                        0 <= m < self@.members.len() && list@[j as int].member@ == (
                        #[trigger] self@.members[m]).address@ implies has_paid(
                        self@.members[m],
                    ) by {
                        assert(self@.members[m].address@ == self@.members[i as int].address@);
                        assert(m == i);
                    }
                },
                None => {},
            }
            j += 1;
        }
        true
    }

    /// Whether the record of round `k + 1` agrees with the state of the group.
    fn round_valid(&self, k: usize) -> (ok: bool)
        requires
            self@.shape(),
            self@.phase_ok(),
            k < self@.rounds.len(),
        ensures
            ok == self@.round_ok(k as int),
    {
        if !self.contributions_valid(k) {
            return false;
        }
        if k < self.settled() as usize {
            self.round_settled_valid(k)
        } else if self.in_progress() && k + 1 == self.group.current_round as usize {
            self.round_collecting_valid(k)
        } else {
            self.rounds[k].contributions.len() == 0 && self.rounds[k].payouts.len() == 0
        }
    }

    /// Whether the ledger obeys the rules of a group between operations.
    fn is_valid(&self) -> (ok: bool)
        ensures
            ok == self.wf(),
    {
        if !settings_valid(&self.group) || !roster_valid(&self.members) {
            return false;
        }
        if self.members.len() > self.group.total_members as usize || self.rounds.len()
            != self.group.total_members as usize {
            return false;
        }
        if self.members.len() == 0 || self.members[0].address != self.group.admin
            || self.members[0].join_timestamp >= self.group.start_timestamp {
            return false;
        }
        if !self.phase_valid() {
            return false;
        }
        let mut i: usize = 0;
        while i < self.members.len()
            invariant
                self@.shape(),
                i <= self@.members.len(),
                forall|a: int| 0 <= a < i ==> #[trigger] self@.member_ok(a),
            decreases self@.members.len() - i,
        {
            if !self.member_valid(i) {
                return false;
            }
            i += 1;
        }
        let mut k: usize = 0;
        while k < self.rounds.len()
            invariant
                self@.shape(),
                self@.phase_ok(),
                k <= self@.rounds.len(),
                forall|a: int| 0 <= a < k ==> #[trigger] self@.round_ok(a),
            decreases self@.rounds.len() - k,
        {
            if !self.round_valid(k) {
                return false;
            }
            k += 1;
        }
        true
    }

    /// The ledger with these settings, this roster and these rounds, if they
    /// obey the rules of a group between operations.
    pub fn from_parts(group: SavingsGroup, members: Vec<Member>, rounds: Vec<Round>) -> (result:
        Option<GroupLedger>)
        ensures
            match result {
                Some(ledger) => {
                    &&& ledger.wf()
                    &&& ledger@ == (LedgerView {
                        group,
                        members: members@,
                        rounds: rounds@.map_values(|r: Round| r@),
                    })
                },
                None => !(LedgerView {
                    group,
                    members: members@,
                    rounds: rounds@.map_values(|r: Round| r@),
                }).wf(),
            },
    {
        let ledger = GroupLedger { group, members, rounds };
        if ledger.is_valid() {
            Some(ledger)
        } else {
            None
        }
    }

    /// Where `address` stands on the roster, if it does.
    fn find_member(&self, address: &Address) -> (found: Option<usize>)
        ensures
            match found {
                Some(i) => i < self@.members.len() && self@.members[i as int].address@ == address@,
                None => !self@.has_member(address@),
            },
            self@.shape() ==> self@.position(address@) == match found {
                Some(i) => Some(i as int),
                None => None::<int>,
            },
    {
        let mut i: usize = 0;
        while i < self.members.len()
            invariant
                i <= self.members@.len(),
                forall|j: int| 0 <= j < i ==> (#[trigger] self.members@[j]).address@ != address@,
            decreases self.members@.len() - i,
        {
            if self.members[i].address == *address {
                return Some(i);
            }
            i += 1;
        }
        None
    }
}

} // verus!
