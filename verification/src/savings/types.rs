//! Plain records of the savings engine.

use vstd::prelude::*;

verus! {

/// An account or contract address, in its textual form.
pub type Address = String;

/// Why an operation on a savings group was refused.
#[derive(Clone, Copy, Debug, PartialEq, Eq, PartialOrd, Ord, Structural)]
pub enum Error {
    ContributionTooLow,
    InvalidMemberCount,
    StartDateMustBeFuture,
    GroupNotFound,
    GroupNotAcceptingMembers,
    GroupIsFull,
    AlreadyMember,
    GroupNotActive,
    NotMember,
    MemberDefaulted,
    AlreadyPaidThisRound,
    PaymentWindowClosed,
    RecipientNotFound,
    NoRecipientFound,
}

/// Where a group stands in its life.
#[derive(Clone, Copy, Debug, PartialEq, Eq, Structural)]
pub enum GroupStatus {
    /// Accepting members.
    Open,
    /// All members joined, rounds in progress.
    Active,
    /// Every round has been paid out.
    Completed,
    /// Temporarily stopped.
    Paused,
}

/// Where a member stands in the current round.
#[derive(Clone, Copy, Debug, PartialEq, Eq, Structural)]
pub enum MemberStatus {
    Active,
    PaidCurrentRound,
    Overdue,
    Defaulted,
    ReceivedPayout,
}

/// How often members owe a contribution.
#[derive(Clone, Copy, Debug, PartialEq, Eq, Structural)]
pub enum Frequency {
    Weekly,
    BiWeekly,
    Monthly,
}

/// A group's configuration and where it stands.
#[derive(Debug, PartialEq, Eq)]
pub struct SavingsGroup {
    pub group_id: String,
    pub admin: Address,
    pub name: String,
    /// What every member pays every round, in the smallest currency unit.
    pub contribution_amount: i128,
    /// How many members the group takes, and how many rounds it runs.
    pub total_members: u32,
    pub frequency: Frequency,
    /// When collection for the first round begins.
    pub start_timestamp: u64,
    pub status: GroupStatus,
    pub is_public: bool,
    /// The round being collected, from 1; 0 while members are still joining.
    pub current_round: u32,
    /// The platform's share of every pool, in basis points.
    pub platform_fee_percent: u32,
}

impl Clone for SavingsGroup {
    fn clone(&self) -> (copy: Self)
        ensures
            copy == *self,
    {
        SavingsGroup {
            group_id: self.group_id.clone(),
            admin: self.admin.clone(),
            name: self.name.clone(),
            contribution_amount: self.contribution_amount,
            total_members: self.total_members,
            frequency: self.frequency,
            start_timestamp: self.start_timestamp,
            status: self.status,
            is_public: self.is_public,
            current_round: self.current_round,
            platform_fee_percent: self.platform_fee_percent,
        }
    }
}

/// One member of one group.
#[derive(Debug, PartialEq, Eq)]
pub struct Member {
    pub address: Address,
    pub join_timestamp: u64,
    /// Position in the order of admission, from 0.
    pub join_order: u32,
    pub status: MemberStatus,
    pub total_contributed: i128,
    pub has_received_payout: bool,
    /// The round whose pool this member received; 0 if none yet.
    pub payout_round: u32,
}

impl Clone for Member {
    fn clone(&self) -> (copy: Self)
        ensures
            copy == *self,
    {
        Member {
            address: self.address.clone(),
            join_timestamp: self.join_timestamp,
            join_order: self.join_order,
            status: self.status,
            total_contributed: self.total_contributed,
            has_received_payout: self.has_received_payout,
            payout_round: self.payout_round,
        }
    }
}

/// One payment into a round's pool.
#[derive(Debug, PartialEq, Eq)]
pub struct Contribution {
    pub member: Address,
    pub amount: i128,
    pub round: u32,
    pub timestamp: u64,
}

impl Clone for Contribution {
    fn clone(&self) -> (copy: Self)
        ensures
            copy == *self,
    {
        Contribution {
            member: self.member.clone(),
            amount: self.amount,
            round: self.round,
            timestamp: self.timestamp,
        }
    }
}

/// One round's pool, less the fee, going to a member.
#[derive(Debug, PartialEq, Eq)]
pub struct Payout {
    pub recipient: Address,
    pub amount: i128,
    pub round: u32,
    pub timestamp: u64,
}

impl Clone for Payout {
    fn clone(&self) -> (copy: Self)
        ensures
            copy == *self,
    {
        Payout {
            recipient: self.recipient.clone(),
            amount: self.amount,
            round: self.round,
            timestamp: self.timestamp,
        }
    }
}

} // verus!
