//! The mathematical model of one savings group: its state as sequences, the
//! rules a state obeys between operations, and each operation as a function
//! from state to state.

use vstd::prelude::*;
use crate::savings::fees::{amounts_fit, payout_amount};
use crate::savings::schedule::{deadline, window_closed, GRACE_PERIOD};
use crate::savings::types::{
    Address, Contribution, Error, Frequency, GroupStatus, Member, MemberStatus, Payout,
    SavingsGroup,
};

verus! {

/// The least contribution a group may ask for.
pub const MIN_CONTRIBUTION: i128 = 10_000_000;

/// The fewest members a group may have.
pub const MIN_MEMBERS: u32 = 3;

/// The most members a group may have.
pub const MAX_MEMBERS: u32 = 20;

/// The platform fee of every new group, in basis points.
pub const PLATFORM_FEE_BPS: u32 = 200;

/// What one round has recorded.
pub struct RoundView {
    pub contributions: Seq<Contribution>,
    pub payouts: Seq<Payout>,
}

/// The state of one group.
pub struct LedgerView {
    pub group: SavingsGroup,
    /// The roster, in order of admission.
    pub members: Seq<Member>,
    /// One entry per round; round `r` is at index `r - 1`.
    pub rounds: Seq<RoundView>,
}

/// Whether a member has paid into the round being collected.
pub open spec fn has_paid(m: Member) -> bool {
    m.status == MemberStatus::PaidCurrentRound
}

/// How many of `members` have paid into the round being collected.
pub open spec fn paid_count(members: Seq<Member>) -> nat
    decreases members.len(),
{
    if members.len() == 0 {
        0
    } else {
        paid_count(members.drop_last()) + if has_paid(members.last()) {
            1nat
        } else {
            0nat
        }
    }
}

/// A round in which nothing has happened yet.
pub open spec fn empty_round() -> RoundView {
    RoundView { contributions: Seq::empty(), payouts: Seq::empty() }
}

/// Why a group with these settings cannot be created at `now`, if it cannot.
pub open spec fn creation_error(
    contribution_amount: i128,
    total_members: u32,
    start_timestamp: u64,
    now: u64,
) -> Option<Error> {
    if contribution_amount < MIN_CONTRIBUTION {
        Some(Error::ContributionTooLow)
    } else if total_members < MIN_MEMBERS || total_members > MAX_MEMBERS {
        Some(Error::InvalidMemberCount)
    } else if start_timestamp <= now {
        Some(Error::StartDateMustBeFuture)
    } else {
        None
    }
}

/// Whether every amount and deadline of a group with these settings can be
/// held in the machine's integers.
pub open spec fn representable(
    contribution_amount: i128,
    total_members: u32,
    fee_bps: u32,
    start_timestamp: u64,
    frequency: Frequency,
) -> bool {
    &&& amounts_fit(contribution_amount, total_members, fee_bps)
    &&& deadline(start_timestamp, frequency, total_members) + GRACE_PERIOD <= u64::MAX
}

/// The settings of a group just created: open, before its first round, at
/// the standard platform fee.
pub open spec fn new_group(
    admin: Address,
    group_id: String,
    name: String,
    contribution_amount: i128,
    total_members: u32,
    frequency: Frequency,
    start_timestamp: u64,
    is_public: bool,
) -> SavingsGroup {
    SavingsGroup {
        group_id,
        admin,
        name,
        contribution_amount,
        total_members,
        frequency,
        start_timestamp,
        status: GroupStatus::Open,
        is_public,
        current_round: 0,
        platform_fee_percent: PLATFORM_FEE_BPS,
    }
}

/// Whether the settings of a group are within the rules: three to twenty
/// members, at least the minimum contribution, a fee of at most the whole
/// pool, a round that the group has, and amounts and deadlines that the
/// machine's integers can hold.
pub open spec fn settings_ok(group: SavingsGroup) -> bool {
    &&& MIN_MEMBERS <= group.total_members <= MAX_MEMBERS
    &&& group.contribution_amount >= MIN_CONTRIBUTION
    &&& group.platform_fee_percent <= 10_000
    &&& group.current_round <= group.total_members
    &&& representable(
        group.contribution_amount,
        group.total_members,
        group.platform_fee_percent,
        group.start_timestamp,
        group.frequency,
    )
}

/// Whether a roster is ranked by admission, from 0, and names nobody twice.
pub open spec fn roster_ok(members: Seq<Member>) -> bool {
    &&& forall|i: int| 0 <= i < members.len() ==> (#[trigger] members[i]).join_order == i
    &&& forall|i: int, j: int|
        0 <= i < j < members.len() ==> (#[trigger] members[i]).address@ != (
        #[trigger] members[j]).address@
}

/// The record of a member admitted at `now` with rank `rank`.
pub open spec fn new_member(address: Address, rank: u32, now: u64) -> Member {
    Member {
        address,
        join_timestamp: now,
        join_order: rank,
        status: MemberStatus::Active,
        total_contributed: 0,
        has_received_payout: false,
        payout_round: 0,
    }
}

impl LedgerView {
    /// Whether `address` is on the roster.
    pub open spec fn has_member(self, address: Seq<char>) -> bool {
        exists|i: int| 0 <= i < self.members.len() && (#[trigger] self.members[i]).address@ == address
    }

    /// Where on the roster `address` stands, if it does.
    pub open spec fn position(self, address: Seq<char>) -> Option<int> {
        if self.has_member(address) {
            Some(
                choose|i: int|
                    0 <= i < self.members.len() && (#[trigger] self.members[i]).address@ == address,
            )
        } else {
            None
        }
    }

    /// The addresses on the roster, in order of admission.
    pub open spec fn roster(self) -> Seq<Address> {
        self.members.map_values(|m: Member| m.address)
    }

    /// What was paid into `round`; nothing for a round the group does not have.
    pub open spec fn contributions_of(self, round: u32) -> Seq<Contribution> {
        if 1 <= round <= self.rounds.len() {
            self.rounds[round - 1].contributions
        } else {
            Seq::empty()
        }
    }

    /// What `round` paid out; nothing for a round the group does not have.
    pub open spec fn payouts_of(self, round: u32) -> Seq<Payout> {
        if 1 <= round <= self.rounds.len() {
            self.rounds[round - 1].payouts
        } else {
            Seq::empty()
        }
    }

    /// When `round` falls due, for a round the group has.
    pub open spec fn deadline_of(self, round: u32) -> Option<int> {
        if 1 <= round <= self.group.total_members {
            Some(deadline(self.group.start_timestamp, self.group.frequency, round))
        } else {
            None
        }
    }

    /// Whether a round is being collected.
    pub open spec fn in_progress(self) -> bool {
        self.group.current_round > 0 && self.group.status != GroupStatus::Completed
    }

    /// How many rounds have been paid out.
    pub open spec fn settled(self) -> int {
        if self.group.status == GroupStatus::Completed {
            self.group.current_round as int
        } else if self.group.current_round == 0 {
            0
        } else {
            self.group.current_round - 1
        }
    }

    /// When the round being collected falls due.
    pub open spec fn current_deadline(self) -> int {
        deadline(self.group.start_timestamp, self.group.frequency, self.group.current_round)
    }

    /// What the recipient of any round of this group gets.
    pub open spec fn payout(self) -> int {
        payout_amount(
            self.group.contribution_amount,
            self.group.total_members,
            self.group.platform_fee_percent,
        )
    }

    /// What holds of a ledger at every step, also in the middle of an
    /// operation: valid settings, a roster ranked by admission without
    /// repeated addresses, and one record per round.
    pub open spec fn shape(self) -> bool {
        &&& settings_ok(self.group)
        &&& self.members.len() <= self.group.total_members
        &&& self.rounds.len() == self.group.total_members
        &&& roster_ok(self.members)
    }

    /// Whether the status and round of the group agree with its roster: the
    /// round is 0 exactly while seats are free, and a completed group stands
    /// at its last round.
    pub open spec fn phase_ok(self) -> bool {
        &&& self.group.current_round == 0 ==> {
            &&& self.members.len() < self.group.total_members
            &&& (self.group.status == GroupStatus::Open || self.group.status
                == GroupStatus::Paused)
        }
        &&& self.group.current_round > 0 ==> {
            &&& self.members.len() == self.group.total_members
            &&& self.group.status != GroupStatus::Open
        }
        &&& self.group.status == GroupStatus::Completed ==> self.group.current_round
            == self.group.total_members
    }

    /// Whether the record of the member of rank `i` agrees with the rounds
    /// played: paid out exactly if the round of that rank is settled, and
    /// credited with one contribution per round paid into.
    pub open spec fn member_ok(self, i: int) -> bool {
        let m = self.members[i];
        &&& m.has_received_payout == (i < self.settled())
        &&& m.payout_round == if i < self.settled() {
            i + 1
        } else {
            0
        }
        &&& m.total_contributed == self.group.contribution_amount * (self.settled() + if has_paid(
            m,
        ) {
            1int
        } else {
            0int
        })
        &&& has_paid(m) ==> self.in_progress()
        &&& m.status == MemberStatus::Defaulted ==> self.in_progress()
    }

    /// Whether the contributions recorded for round `k + 1` are well formed:
    /// each for that round, of the fixed amount, by a member, and no two by
    /// the same member.
    pub open spec fn contributions_ok(self, k: int) -> bool {
        let list = self.rounds[k].contributions;
        &&& forall|j: int|
            0 <= j < list.len() ==> {
                &&& (#[trigger] list[j]).round == k + 1
                &&& list[j].amount == self.group.contribution_amount
                &&& self.has_member(list[j].member@)
            }
        &&& forall|i: int, j: int|
            0 <= i < j < list.len() ==> (#[trigger] list[i]).member@ != (#[trigger] list[j]).member@
    }

    /// Whether round `k + 1` is recorded as paid out in full.
    pub open spec fn round_settled(self, k: int) -> bool {
        let round = self.rounds[k];
        &&& round.contributions.len() == self.members.len()
        &&& round.payouts.len() == 1
        &&& round.payouts[0].recipient@ == self.members[k].address@
        &&& round.payouts[0].amount == self.payout()
        &&& round.payouts[0].round == k + 1
    }

    /// Whether round `k + 1` is recorded as the one being collected: one
    /// contribution for each member marked as paid, not yet all of them, and
    /// no payout.
    pub open spec fn round_collecting(self, k: int) -> bool {
        let round = self.rounds[k];
        &&& round.contributions.len() == paid_count(self.members)
        &&& round.contributions.len() < self.members.len()
        &&& round.payouts.len() == 0
        &&& forall|j: int, i: int|
            0 <= j < round.contributions.len() && 0 <= i < self.members.len() && (
            #[trigger] round.contributions[j]).member@ == (#[trigger] self.members[i]).address@
                ==> has_paid(self.members[i])
    }

    /// Whether the record of round `k + 1` agrees with the state of the group.
    pub open spec fn round_ok(self, k: int) -> bool {
        &&& self.contributions_ok(k)
        &&& if k < self.settled() {
            self.round_settled(k)
        } else if self.in_progress() && k == self.group.current_round - 1 {
            self.round_collecting(k)
        } else {
            self.rounds[k].contributions.len() == 0 && self.rounds[k].payouts.len() == 0
        }
    }

    /// What holds of a ledger between operations.
    pub open spec fn wf(self) -> bool {
        &&& self.shape()
        &&& self.members.len() >= 1
        &&& self.members[0].address@ == self.group.admin@
        &&& self.members[0].join_timestamp < self.group.start_timestamp
        &&& self.phase_ok()
        &&& forall|i: int| 0 <= i < self.members.len() ==> #[trigger] self.member_ok(i)
        &&& forall|k: int| 0 <= k < self.rounds.len() ==> #[trigger] self.round_ok(k)
    }
}

impl LedgerView {
    /// The ledger of a group just created: the admin alone on the roster,
    /// and an empty record for every round to come.
    pub open spec fn fresh(group: SavingsGroup, admin: Address, now: u64) -> LedgerView {
        LedgerView {
            group,
            members: seq![new_member(admin, 0, now)],
            rounds: Seq::new(group.total_members as nat, |k: int| empty_round()),
        }
    }

    /// Why `candidate` cannot join, if it cannot. A member is told so
    /// whatever the state of the group; a stranger is told that the group is
    /// full before being told that it takes no members for another reason.
    pub open spec fn join_error(self, candidate: Seq<char>) -> Option<Error> {
        if self.has_member(candidate) {
            Some(Error::AlreadyMember)
        } else if self.members.len() >= self.group.total_members {
            Some(Error::GroupIsFull)
        } else if self.group.status != GroupStatus::Open {
            Some(Error::GroupNotAcceptingMembers)
        } else {
            None
        }
    }

    /// The ledger after `candidate` has joined at `now`: last on the roster,
    /// and if that fills the group, the first round opens.
    pub open spec fn joined(self, candidate: Address, now: u64) -> LedgerView {
        LedgerView {
            group: if self.members.len() + 1 == self.group.total_members {
                SavingsGroup { status: GroupStatus::Active, current_round: 1, ..self.group }
            } else {
                self.group
            },
            members: self.members.push(new_member(candidate, self.members.len() as u32, now)),
            rounds: self.rounds,
        }
    }

    /// The ledger after the member of rank `i` has been marked as defaulted.
    pub open spec fn defaulted(self, i: int) -> LedgerView {
        LedgerView {
            members: self.members.update(
                i,
                Member { status: MemberStatus::Defaulted, ..self.members[i] },
            ),
            ..self
        }
    }

    /// The ledger after the payment of the member of rank `i` into the
    /// current round has been recorded at `now`.
    pub open spec fn recorded(self, i: int, payer: Address, now: u64) -> LedgerView {
        let k = self.group.current_round - 1;
        LedgerView {
            group: self.group,
            members: self.members.update(
                i,
                Member {
                    status: MemberStatus::PaidCurrentRound,
                    total_contributed: (self.members[i].total_contributed
                        + self.group.contribution_amount) as i128,
                    ..self.members[i]
                },
            ),
            rounds: self.rounds.update(
                k,
                RoundView {
                    contributions: self.rounds[k].contributions.push(
                        Contribution {
                            member: payer,
                            amount: self.group.contribution_amount,
                            round: self.group.current_round,
                            timestamp: now,
                        },
                    ),
                    payouts: self.rounds[k].payouts,
                },
            ),
        }
    }

    /// Whether the current round has one contribution for each member.
    pub open spec fn collected(self) -> bool {
        self.rounds[self.group.current_round - 1].contributions.len() == self.members.len()
    }

    /// The rank of the member whom the current round pays: the one who joined
    /// at the round's place in the rotation, unless already paid.
    pub open spec fn recipient(self) -> Option<int> {
        let k = self.group.current_round - 1;
        if 0 <= k < self.members.len() && !self.members[k].has_received_payout {
            Some(k)
        } else {
            None
        }
    }

    /// The ledger after the current round's pool has gone to the member of
    /// rank `k` at `now`.
    pub open spec fn paid_out(self, k: int, now: u64) -> LedgerView {
        let r = self.group.current_round - 1;
        LedgerView {
            group: self.group,
            members: self.members.update(
                k,
                Member {
                    has_received_payout: true,
                    payout_round: self.group.current_round,
                    status: MemberStatus::ReceivedPayout,
                    ..self.members[k]
                },
            ),
            rounds: self.rounds.update(
                r,
                RoundView {
                    contributions: self.rounds[r].contributions,
                    payouts: self.rounds[r].payouts.push(
                        Payout {
                            recipient: self.members[k].address,
                            amount: self.payout() as i128,
                            round: self.group.current_round,
                            timestamp: now,
                        },
                    ),
                },
            ),
        }
    }

    /// The ledger after the current round has ended: whoever had paid owes
    /// again, and the group moves to the next round, or is completed after
    /// its last.
    pub open spec fn round_ended(self) -> LedgerView {
        LedgerView {
            group: if self.group.current_round >= self.group.total_members {
                SavingsGroup { status: GroupStatus::Completed, ..self.group }
            } else {
                SavingsGroup {
                    current_round: (self.group.current_round + 1) as u32,
                    ..self.group
                }
            },
            members: self.members.map_values(
                |m: Member|
                    if has_paid(m) {
                        Member { status: MemberStatus::Active, ..m }
                    } else {
                        m
                    },
            ),
            rounds: self.rounds,
        }
    }

    /// The ledger after a collected round has been paid out and ended, if it
    /// has a recipient.
    pub open spec fn distributed(self, now: u64) -> LedgerView {
        match self.recipient() {
            Some(k) => self.paid_out(k, now).round_ended(),
            None => self,
        }
    }

    /// Why `payer` cannot contribute at `now`, if it cannot.
    pub open spec fn contribute_error(self, payer: Seq<char>, now: u64) -> Option<Error> {
        if self.group.status != GroupStatus::Active {
            Some(Error::GroupNotActive)
        } else {
            match self.position(payer) {
                None => Some(Error::NotMember),
                Some(i) => if self.members[i].status == MemberStatus::Defaulted {
                    Some(Error::MemberDefaulted)
                } else if has_paid(self.members[i]) {
                    Some(Error::AlreadyPaidThisRound)
                } else if window_closed(self.current_deadline(), now) {
                    Some(Error::PaymentWindowClosed)
                } else {
                    None
                },
            }
        }
    }

    /// The ledger after `payer` has asked to contribute at `now`. A payment
    /// that comes too late marks the member as defaulted; any other refusal
    /// changes nothing; a payment that is taken is recorded, and if it is the
    /// round's last, the round is paid out and ended.
    pub open spec fn contributed(self, payer: Address, now: u64) -> LedgerView {
        match self.contribute_error(payer@, now) {
            Some(Error::PaymentWindowClosed) => self.defaulted(self.position(payer@).unwrap()),
            Some(_) => self,
            None => {
                let taken = self.recorded(self.position(payer@).unwrap(), payer, now);
                if taken.collected() {
                    taken.distributed(now)
                } else {
                    taken
                }
            },
        }
    }
}

} // verus!
