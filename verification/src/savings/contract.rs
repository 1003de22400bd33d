//! The savings contract: many groups side by side, each with a ledger of
//! its own, and a record of who joined which group.

use vstd::prelude::*;
use crate::membership::{
    all_distinct, copy_pairs, distinct, find_pair, groups_of, listed_groups, lists, pairs, texts,
};
use crate::savings::ledger::GroupLedger;
use crate::savings::proofs::{lemma_contributed_roster, lemma_joined_roster};
use crate::savings::model::{
    creation_error, new_group, representable, LedgerView, PLATFORM_FEE_BPS,
};
use crate::savings::types::{
    Address, Contribution, Error, Frequency, Member, Payout, SavingsGroup,
};

verus! {

/// The state of a savings contract.
pub struct ContractView {
    /// The ledgers of the groups, in order of creation.
    pub ledgers: Seq<LedgerView>,
    /// Every admission, as member and group, in the order in which they
    /// happened.
    pub joins: Seq<(Seq<char>, Seq<char>)>,
}

impl ContractView {
    /// Whether a group goes by `id`.
    pub open spec fn has_group(self, id: Seq<char>) -> bool {
        exists|i: int|
            0 <= i < self.ledgers.len() && (#[trigger] self.ledgers[i]).group.group_id@ == id
    }

    /// Where the ledger of the group `id` stands, if there is such a group.
    pub open spec fn find(self, id: Seq<char>) -> Option<int> {
        if self.has_group(id) {
            Some(
                choose|i: int|
                    0 <= i < self.ledgers.len() && (#[trigger] self.ledgers[i]).group.group_id@
                        == id,
            )
        } else {
            None
        }
    }

    /// Whether `user` is on the roster of the group `id`.
    pub open spec fn is_member(self, user: Seq<char>, id: Seq<char>) -> bool {
        exists|i: int|
            0 <= i < self.ledgers.len() && (#[trigger] self.ledgers[i]).group.group_id@ == id
                && self.ledgers[i].has_member(user)
    }

    /// Whether the admissions list `user` for the group `id`.
    pub open spec fn listed(self, user: Seq<char>, id: Seq<char>) -> bool {
        lists(self.joins, user, id)
    }

    /// The identifiers of all groups, in order of creation.
    pub open spec fn group_ids(self) -> Seq<String> {
        self.ledgers.map_values(|l: LedgerView| l.group.group_id)
    }

    /// Why `candidate` cannot join the group `id`, if it cannot.
    pub open spec fn join_error(self, candidate: Seq<char>, id: Seq<char>) -> Option<Error> {
        match self.find(id) {
            None => Some(Error::GroupNotFound),
            Some(i) => self.ledgers[i].join_error(candidate),
        }
    }

    /// The contract after `candidate` has asked at `now` to join the group
    /// `id`: admitted to that group and listed for it, or nothing changed.
    pub open spec fn joined(self, candidate: Address, id: Seq<char>, now: u64) -> ContractView {
        match self.find(id) {
            Some(i) if self.ledgers[i].join_error(candidate@) is None => ContractView {
                ledgers: self.ledgers.update(i, self.ledgers[i].joined(candidate, now)),
                joins: self.joins.push((candidate@, id)),
            },
            _ => self,
        }
    }

    /// Why `payer` cannot contribute to the group `id` at `now`, if it
    /// cannot.
    pub open spec fn contribute_error(self, payer: Seq<char>, id: Seq<char>, now: u64) -> Option<
        Error,
    > {
        match self.find(id) {
            None => Some(Error::GroupNotFound),
            Some(i) => self.ledgers[i].contribute_error(payer, now),
        }
    }

    /// The contract after `payer` has asked at `now` to contribute to the
    /// group `id`: that group's ledger has moved, and nothing else.
    pub open spec fn contributed(self, payer: Address, id: Seq<char>, now: u64) -> ContractView {
        match self.find(id) {
            Some(i) => ContractView {
                ledgers: self.ledgers.update(i, self.ledgers[i].contributed(payer, now)),
                joins: self.joins,
            },
            None => self,
        }
    }

    /// The contract after a group with the ledger `fresh` has been created
    /// by `admin`.
    pub open spec fn created(self, fresh: LedgerView, admin: Seq<char>) -> ContractView {
        ContractView {
            ledgers: self.ledgers.push(fresh),
            joins: self.joins.push((admin, fresh.group.group_id@)),
        }
    }

    /// What holds of a contract between operations: every ledger is well
    /// formed, no two groups share an identifier, and the admissions list
    /// exactly the members of the groups, each once.
    pub open spec fn wf(self) -> bool {
        &&& forall|i: int| 0 <= i < self.ledgers.len() ==> (#[trigger] self.ledgers[i]).wf()
        &&& forall|i: int, j: int|
            0 <= i < j < self.ledgers.len() ==> (#[trigger] self.ledgers[i]).group.group_id@ != (
            #[trigger] self.ledgers[j]).group.group_id@
        &&& forall|user: Seq<char>, id: Seq<char>|
            #![trigger self.listed(user, id)]
            #![trigger self.is_member(user, id)]
            self.listed(user, id) <==> self.is_member(user, id)
        &&& distinct(self.joins)
    }
}

/// Admission to one group keeps a contract well formed.
proof fn lemma_joined_wf(c: ContractView, candidate: Address, id: Seq<char>, now: u64)
    requires
        c.wf(),
        c.join_error(candidate@, id) is None,
        c.find(id) matches Some(i) && c.ledgers[i].joined(candidate, now).wf(),
    ensures
        c.joined(candidate, id, now).wf(),
{
    let i = c.find(id).unwrap();
    let d = c.joined(candidate, id, now);
    lemma_joined_roster(c.ledgers[i], candidate, now);
    assert forall|user: Seq<char>, g: Seq<char>|
        #![trigger d.listed(user, g)]
        #![trigger d.is_member(user, g)]
        d.listed(user, g) <==> d.is_member(user, g) by {
        assert(c.listed(user, g) <==> c.is_member(user, g));
        if d.listed(user, g) {
            let k = choose|k: int| 0 <= k < d.joins.len() && #[trigger] d.joins[k] == (user, g);
            if k < c.joins.len() {
                assert(c.joins[k] == (user, g));
                let j = choose|j: int|
                    0 <= j < c.ledgers.len() && (#[trigger] c.ledgers[j]).group.group_id@ == g
                        && c.ledgers[j].has_member(user);
                assert(d.ledgers[j].group.group_id@ == g && d.ledgers[j].has_member(user));
            } else {
                assert(d.ledgers[i].group.group_id@ == g && d.ledgers[i].has_member(user));
            }
        }
        if d.is_member(user, g) {
            let j = choose|j: int|
                0 <= j < d.ledgers.len() && (#[trigger] d.ledgers[j]).group.group_id@ == g
                    && d.ledgers[j].has_member(user);
            if j == i && user == candidate@ {
                assert(d.joins[c.joins.len() as int] == (user, g));
            } else {
                assert(c.ledgers[j].group.group_id@ == g && c.ledgers[j].has_member(user));
                let k = choose|k: int| 0 <= k < c.joins.len() && #[trigger] c.joins[k] == (user, g);
                assert(d.joins[k] == (user, g));
            }
        }
    }
    assert forall|a: int, b: int| 0 <= a < b < d.joins.len() implies #[trigger] d.joins[a]
        != #[trigger] d.joins[b] by {
        if b == c.joins.len() && d.joins[a] == d.joins[b] {
            assert(c.joins[a] == (candidate@, id));
            assert(c.listed(candidate@, id));
            assert(c.is_member(candidate@, id));
            let j = choose|j: int|
                0 <= j < c.ledgers.len() && (#[trigger] c.ledgers[j]).group.group_id@ == id
                    && c.ledgers[j].has_member(candidate@);
            assert(j == i);
        }
    }
    assert forall|a: int, b: int| 0 <= a < b < d.ledgers.len() implies (
    #[trigger] d.ledgers[a]).group.group_id@ != (#[trigger] d.ledgers[b]).group.group_id@ by {
        assert(c.ledgers[a].group.group_id@ != c.ledgers[b].group.group_id@);
    }
}

/// A request to contribute to one group keeps a contract well formed.
proof fn lemma_contributed_wf(c: ContractView, payer: Address, id: Seq<char>, now: u64)
    requires
        c.wf(),
        c.find(id) matches Some(i) && c.ledgers[i].contributed(payer, now).wf(),
    ensures
        c.contributed(payer, id, now).wf(),
{
    let i = c.find(id).unwrap();
    let d = c.contributed(payer, id, now);
    lemma_contributed_roster(c.ledgers[i], payer, now);
    assert forall|j: int| 0 <= j < c.ledgers.len() implies (#[trigger] d.ledgers[j]).group.group_id
        == c.ledgers[j].group.group_id && (forall|a: Seq<char>|
        d.ledgers[j].has_member(a) <==> c.ledgers[j].has_member(a)) by {}
    assert forall|user: Seq<char>, g: Seq<char>|
        #![trigger d.listed(user, g)]
        #![trigger d.is_member(user, g)]
        d.listed(user, g) <==> d.is_member(user, g) by {
        assert(c.listed(user, g) <==> c.is_member(user, g));
        if c.listed(user, g) {
            let k = choose|k: int| 0 <= k < c.joins.len() && #[trigger] c.joins[k] == (user, g);
            assert(d.joins[k] == (user, g));
        }
        if d.listed(user, g) {
            let k = choose|k: int| 0 <= k < d.joins.len() && #[trigger] d.joins[k] == (user, g);
            assert(c.joins[k] == (user, g));
        }
        if c.is_member(user, g) {
            let j = choose|j: int|
                0 <= j < c.ledgers.len() && (#[trigger] c.ledgers[j]).group.group_id@ == g
                    && c.ledgers[j].has_member(user);
            assert(d.ledgers[j].group.group_id@ == g && d.ledgers[j].has_member(user));
        }
        if d.is_member(user, g) {
            let j = choose|j: int|
                0 <= j < d.ledgers.len() && (#[trigger] d.ledgers[j]).group.group_id@ == g
                    && d.ledgers[j].has_member(user);
            assert(c.ledgers[j].group.group_id@ == g && c.ledgers[j].has_member(user));
        }
    }
    assert forall|a: int, b: int| 0 <= a < b < d.ledgers.len() implies (
    #[trigger] d.ledgers[a]).group.group_id@ != (#[trigger] d.ledgers[b]).group.group_id@ by {
        assert(c.ledgers[a].group.group_id@ != c.ledgers[b].group.group_id@);
    }
}

/// A new group under a new identifier keeps a contract well formed.
proof fn lemma_created_wf(c: ContractView, fresh: LedgerView, admin: Address)
    requires
        c.wf(),
        fresh.wf(),
        !c.has_group(fresh.group.group_id@),
        fresh.members.len() == 1,
        fresh.members[0].address@ == admin@,
    ensures
        c.created(fresh, admin@).wf(),
{
    let d = c.created(fresh, admin@);
    let id = fresh.group.group_id@;
    let n = c.ledgers.len() as int;
    assert forall|a: Seq<char>| fresh.has_member(a) <==> a == admin@ by {
        if fresh.has_member(a) {
            let m = choose|m: int|
                0 <= m < fresh.members.len() && (#[trigger] fresh.members[m]).address@ == a;
        }
        if a == admin@ {
            assert(fresh.members[0].address@ == a);
        }
    }
    assert forall|user: Seq<char>, g: Seq<char>|
        #![trigger d.listed(user, g)]
        #![trigger d.is_member(user, g)]
        d.listed(user, g) <==> d.is_member(user, g) by {
        assert(c.listed(user, g) <==> c.is_member(user, g));
        if d.listed(user, g) {
            let k = choose|k: int| 0 <= k < d.joins.len() && #[trigger] d.joins[k] == (user, g);
            if k < c.joins.len() {
                assert(c.joins[k] == (user, g));
                let j = choose|j: int|
                    0 <= j < c.ledgers.len() && (#[trigger] c.ledgers[j]).group.group_id@ == g
                        && c.ledgers[j].has_member(user);
                assert(d.ledgers[j].group.group_id@ == g && d.ledgers[j].has_member(user));
            } else {
                assert(d.ledgers[n].group.group_id@ == g && d.ledgers[n].has_member(user));
            }
        }
        if d.is_member(user, g) {
            let j = choose|j: int|
                0 <= j < d.ledgers.len() && (#[trigger] d.ledgers[j]).group.group_id@ == g
                    && d.ledgers[j].has_member(user);
            if j == n {
                assert(d.joins[c.joins.len() as int] == (user, g));
            } else {
                assert(c.ledgers[j].group.group_id@ == g && c.ledgers[j].has_member(user));
                let k = choose|k: int| 0 <= k < c.joins.len() && #[trigger] c.joins[k] == (user, g);
                assert(d.joins[k] == (user, g));
            }
        }
    }
    assert forall|a: int, b: int| 0 <= a < b < d.joins.len() implies #[trigger] d.joins[a]
        != #[trigger] d.joins[b] by {
        if b == c.joins.len() && d.joins[a] == d.joins[b] {
            assert(c.joins[a] == (admin@, id));
            assert(c.listed(admin@, id));
            assert(c.is_member(admin@, id));
        }
    }
    assert forall|a: int, b: int| 0 <= a < b < d.ledgers.len() implies (
    #[trigger] d.ledgers[a]).group.group_id@ != (#[trigger] d.ledgers[b]).group.group_id@ by {
        if b == n {
            assert(c.ledgers[a].group.group_id@ != id);
        } else {
            assert(c.ledgers[a].group.group_id@ != c.ledgers[b].group.group_id@);
        }
    }
}

/// A savings contract.
pub struct SavingsContract {
    ledgers: Vec<GroupLedger>,
    joins: Vec<(Address, String)>,
}

impl View for SavingsContract {
    type V = ContractView;

    closed spec fn view(&self) -> ContractView {
        ContractView {
            ledgers: self.ledgers@.map_values(|l: GroupLedger| l@),
            joins: pairs(self.joins@),
        }
    }
}

impl SavingsContract {
    /// Whether the contract obeys its rules between operations.
    pub open spec fn wf(&self) -> bool {
        self@.wf()
    }

    /// A contract without groups.
    pub fn new() -> (contract: SavingsContract)
        ensures
            contract.wf(),
            contract@.ledgers.len() == 0,
            contract@.joins.len() == 0,
    {
        SavingsContract { ledgers: Vec::new(), joins: Vec::new() }
    }

    /// Where the ledger of the group `group_id` stands, if there is such a
    /// group.
    fn find_group(&self, group_id: &String) -> (found: Option<usize>)
        ensures
            match found {
                Some(i) => i < self@.ledgers.len() && self@.ledgers[i as int].group.group_id@
                    == group_id@,
                None => !self@.has_group(group_id@),
            },
            self.wf() ==> self@.find(group_id@) == match found {
                Some(i) => Some(i as int),
                None => None::<int>,
            },
    {
        let mut i: usize = 0;
        while i < self.ledgers.len()
            invariant
                i <= self.ledgers@.len(),
                forall|j: int|
                    0 <= j < i ==> (#[trigger] self@.ledgers[j]).group.group_id@ != group_id@,
            decreases self.ledgers@.len() - i,
        {
            if *self.ledgers[i].group_id() == *group_id {
                return Some(i);
            }
            i += 1;
        }
        None
    }

    /// Opens a group with these settings at `now`, with `admin` as its first
    /// member, and lists it for `admin`. The settings are refused, and
    /// nothing changes, if the contribution is under the minimum, else if the
    /// group would have fewer than three or more than twenty members, else if
    /// the start is not after `now`. A group is created once: the identifier
    /// must not be in use. Only for a caller whom the host has authenticated
    /// as `admin`, which `authorized` says.
    pub fn create_group(
        &mut self,
        admin: Address,
        group_id: String,
        name: String,
        contribution_amount: i128,
        total_members: u32,
        frequency: Frequency,
        start_timestamp: u64,
        is_public: bool,
        now: u64,
        authorized: bool,
    ) -> (result: Result<SavingsGroup, Error>)
        requires
            authorized,
            old(self).wf(),
            !old(self)@.has_group(group_id@),
            creation_error(contribution_amount, total_members, start_timestamp, now) is None
                ==> representable(
                contribution_amount,
                total_members,
                PLATFORM_FEE_BPS,
                start_timestamp,
                frequency,
            ),
        ensures
            final(self).wf(),
            match result {
                Ok(group) => {
                    &&& creation_error(contribution_amount, total_members, start_timestamp, now)
                        is None
                    &&& group == new_group(
                        admin,
                        group_id,
                        name,
                        contribution_amount,
                        total_members,
                        frequency,
                        start_timestamp,
                        is_public,
                    )
                    &&& final(self)@ == old(self)@.created(
                        LedgerView::fresh(group, admin, now),
                        admin@,
                    )
                },
                Err(e) => {
                    &&& creation_error(contribution_amount, total_members, start_timestamp, now)
                        == Some(e)
                    &&& final(self)@ == old(self)@
                },
            },
    {
        let ledger = match GroupLedger::create_group(
            admin.clone(),
            group_id.clone(),
            name,
            contribution_amount,
            total_members,
            frequency,
            start_timestamp,
            is_public,
            now,
        ) {
            Ok(ledger) => ledger,
            Err(e) => {
                return Err(e);
            },
        };
        let group = ledger.get_group();
        proof {
            lemma_created_wf(self@, ledger@, admin);
        }
        self.ledgers.push(ledger);
        self.joins.push((admin, group_id));
        assert(self@.ledgers =~= old(self)@.ledgers.push(ledger@));
        assert(self@.joins =~= old(self)@.joins.push((admin@, group_id@)));
        Ok(group)
    }

    /// Admits `member` to the group `group_id` at `now`, last in its
    /// rotation, and lists the group for `member`. When that fills the group,
    /// its first round opens. The request is refused, and nothing changes, if
    /// there is no such group, else if `member` is in it already, else if it
    /// is full, else if it is not open. Only for a caller whom the host has
    /// authenticated as `member`, which `authorized` says.
    pub fn join_group(
        &mut self,
        member: Address,
        group_id: &String,
        now: u64,
        authorized: bool,
    ) -> (result: Result<(), Error>)
        requires
            authorized,
            old(self).wf(),
        ensures
            final(self).wf(),
            final(self)@ == old(self)@.joined(member, group_id@, now),
            result == match old(self)@.join_error(member@, group_id@) {
                Some(e) => Err::<(), Error>(e),
                None => Ok::<(), Error>(()),
            },
    {
        let i = match self.find_group(group_id) {
            Some(i) => i,
            None => {
                return Err(Error::GroupNotFound);
            },
        };
        match self.ledgers[i].join_group(member.clone(), now) {
            Ok(()) => {},
            Err(e) => {
                assert(self@.ledgers =~= old(self)@.ledgers);
                return Err(e);
            },
        }
        proof {
            lemma_joined_wf(old(self)@, member, group_id@, now);
        }
        self.joins.push((member, group_id.clone()));
        assert(self@.ledgers =~= old(self)@.joined(member, group_id@, now).ledgers);
        assert(self@.joins =~= old(self)@.joined(member, group_id@, now).joins);
        Ok(())
    }

    /// Takes the payment of `member` into the current round of the group
    /// `group_id` at `now`. The payment is refused if there is no such group,
    /// else if the group is not active, else if `member` is not in it, else
    /// if it has defaulted, else if it has paid into this round already, else
    /// if `now` lies beyond the round's deadline and its grace period: that
    /// refusal marks the member as defaulted for good, and no other refusal
    /// changes anything. The payment that is the round's last pays the round
    /// out and ends it. No other group is touched. Only for a caller whom the
    /// host has authenticated as `member`, which `authorized` says.
    pub fn contribute(
        &mut self,
        member: Address,
        group_id: &String,
        now: u64,
        authorized: bool,
    ) -> (result: Result<(), Error>)
        requires
            authorized,
            old(self).wf(),
        ensures
            final(self).wf(),
            final(self)@ == old(self)@.contributed(member, group_id@, now),
            result == match old(self)@.contribute_error(member@, group_id@, now) {
                Some(e) => Err::<(), Error>(e),
                None => Ok::<(), Error>(()),
            },
    {
        let i = match self.find_group(group_id) {
            Some(i) => i,
            None => {
                return Err(Error::GroupNotFound);
            },
        };
        let result = self.ledgers[i].contribute(member, now);
        proof {
            lemma_contributed_wf(old(self)@, member, group_id@, now);
        }
        assert(self@.ledgers =~= old(self)@.contributed(member, group_id@, now).ledgers);
        assert(self@.joins =~= old(self)@.joins);
        result
    }

    /// The settings of the group `group_id` and where it stands.
    pub fn get_group(&self, group_id: &String) -> (result: Result<SavingsGroup, Error>)
        requires
            self.wf(),
        ensures
            match result {
                Ok(group) => {
                    &&& self@.find(group_id@) matches Some(i)
                    &&& group == self@.ledgers[i].group
                },
                Err(e) => e == Error::GroupNotFound && self@.find(group_id@) is None,
            },
    {
        match self.find_group(group_id) {
            Some(i) => Ok(self.ledgers[i].get_group()),
            None => Err(Error::GroupNotFound),
        }
    }

    /// The record of `member` in the group `group_id`. Where there is no such
    /// record, for want of the member or of the group, the answer is that
    /// `member` is no member.
    pub fn get_member(&self, member: &Address, group_id: &String) -> (result: Result<
        Member,
        Error,
    >)
        requires
            self.wf(),
        ensures
            match result {
                Ok(record) => {
                    &&& self@.find(group_id@) matches Some(i)
                    &&& self@.ledgers[i].position(member@) matches Some(m)
                    &&& record == self@.ledgers[i].members[m]
                },
                Err(e) => e == Error::NotMember && !self@.is_member(member@, group_id@),
            },
    {
        match self.find_group(group_id) {
            Some(i) => {
                let result = self.ledgers[i].get_member(member);
                proof {
                    if result is Err && self@.is_member(member@, group_id@) {
                        let j = choose|j: int|
                            0 <= j < self@.ledgers.len() && (
                            #[trigger] self@.ledgers[j]).group.group_id@ == group_id@
                                && self@.ledgers[j].has_member(member@);
                        assert(j == i);
                    }
                }
                result
            },
            None => Err(Error::NotMember),
        }
    }

    /// The roster of the group `group_id`, in order of admission; empty
    /// where there is no such group.
    pub fn get_members(&self, group_id: &String) -> (roster: Vec<Address>)
        requires
            self.wf(),
        ensures
            roster@ == match self@.find(group_id@) {
                Some(i) => self@.ledgers[i].roster(),
                None => Seq::<Address>::empty(),
            },
    {
        match self.find_group(group_id) {
            Some(i) => self.ledgers[i].get_members(),
            None => Vec::new(),
        }
    }

    /// What was paid into `round` of the group `group_id`, in order of
    /// payment; nothing where there is no such group or round.
    pub fn get_round_contributions(&self, group_id: &String, round: u32) -> (list: Vec<
        Contribution,
    >)
        requires
            self.wf(),
        ensures
            list@ == match self@.find(group_id@) {
                Some(i) => self@.ledgers[i].contributions_of(round),
                None => Seq::<Contribution>::empty(),
            },
    {
        match self.find_group(group_id) {
            Some(i) => self.ledgers[i].get_round_contributions(round),
            None => Vec::new(),
        }
    }

    /// What `round` of the group `group_id` paid out; nothing where there is
    /// no such group or round.
    pub fn get_round_payouts(&self, group_id: &String, round: u32) -> (list: Vec<Payout>)
        requires
            self.wf(),
        ensures
            list@ == match self@.find(group_id@) {
                Some(i) => self@.ledgers[i].payouts_of(round),
                None => Seq::<Payout>::empty(),
            },
    {
        match self.find_group(group_id) {
            Some(i) => self.ledgers[i].get_round_payouts(round),
            None => Vec::new(),
        }
    }

    /// Whether no two groups share an identifier.
    fn identifiers_valid(&self) -> (ok: bool)
        ensures
            ok == (forall|i: int, j: int|
                0 <= i < j < self@.ledgers.len() ==> (#[trigger] self@.ledgers[i]).group.group_id@
                    != (#[trigger] self@.ledgers[j]).group.group_id@),
    {
        let mut j: usize = 0;
        while j < self.ledgers.len()
            invariant
                j <= self@.ledgers.len(),
                forall|a: int, b: int|
                    0 <= a < b < j ==> (#[trigger] self@.ledgers[a]).group.group_id@ != (
                    #[trigger] self@.ledgers[b]).group.group_id@,
            decreases self@.ledgers.len() - j,
        {
            let mut i: usize = 0;
            while i < j
                invariant
                    i <= j < self@.ledgers.len(),
                    forall|a: int|
                        0 <= a < i ==> (#[trigger] self@.ledgers[a]).group.group_id@
                            != self@.ledgers[j as int].group.group_id@,
                decreases j - i,
            {
                if *self.ledgers[i].group_id() == *self.ledgers[j].group_id() {
                    assert(self@.ledgers[i as int].group.group_id@
                        == self@.ledgers[j as int].group.group_id@);
                    return false;
                }
                i += 1;
            }
            j += 1;
        }
        true
    }

    /// Whether every admission names a member of a group.
    fn admissions_valid(&self) -> (ok: bool)
        requires
            forall|i: int, j: int|
                0 <= i < j < self@.ledgers.len() ==> (#[trigger] self@.ledgers[i]).group.group_id@
                    != (#[trigger] self@.ledgers[j]).group.group_id@,
        ensures
            ok == (forall|k: int|
                0 <= k < self@.joins.len() ==> self@.is_member(
                    (#[trigger] self@.joins[k]).0,
                    self@.joins[k].1,
                )),
    {
        let mut k: usize = 0;
        while k < self.joins.len()
            invariant
                k <= self@.joins.len(),
                forall|i: int, j: int|
                    0 <= i < j < self@.ledgers.len() ==> (
                    #[trigger] self@.ledgers[i]).group.group_id@ != (
                    #[trigger] self@.ledgers[j]).group.group_id@,
                forall|a: int|
                    0 <= a < k ==> self@.is_member((#[trigger] self@.joins[a]).0, self@.joins[a].1),
            decreases self@.joins.len() - k,
        {
            let ghost user = self@.joins[k as int].0;
            let ghost id = self@.joins[k as int].1;
            match self.find_group(&self.joins[k].1) {
                Some(i) => {
                    if !self.ledgers[i].has_member(&self.joins[k].0) {
                        assert(!self@.is_member(user, id)) by {
                            if self@.is_member(user, id) {
                                let j = choose|j: int|
                                    0 <= j < self@.ledgers.len() && (
                                    #[trigger] self@.ledgers[j]).group.group_id@ == id
                                        && self@.ledgers[j].has_member(user);
                                assert(j == i);
                            }
                        }
                        return false;
                    }
                    assert(self@.ledgers[i as int].group.group_id@ == id
                        && self@.ledgers[i as int].has_member(user));
                },
                None => {
                    assert(!self@.is_member(user, id));
                    return false;
                },
            }
            k += 1;
        }
        true
    }

    /// Whether every member of every group has an admission.
    fn rosters_valid(&self) -> (ok: bool)
        ensures
            ok == (forall|i: int, m: int|
                0 <= i < self@.ledgers.len() && 0 <= m < self@.ledgers[i].members.len()
                    ==> lists(
                    self@.joins,
                    (#[trigger] self@.ledgers[i].members[m]).address@,
                    self@.ledgers[i].group.group_id@,
                )),
    {
        let mut i: usize = 0;
        while i < self.ledgers.len()
            invariant
                i <= self@.ledgers.len(),
                forall|a: int, m: int|
                    0 <= a < i && 0 <= m < self@.ledgers[a].members.len() ==> lists(
                        self@.joins,
                        (#[trigger] self@.ledgers[a].members[m]).address@,
                        self@.ledgers[a].group.group_id@,
                    ),
            decreases self@.ledgers.len() - i,
        {
            let roster = self.ledgers[i].get_members();
            let mut m: usize = 0;
            while m < roster.len()
                invariant
                    i < self@.ledgers.len(),
                    roster@ == self@.ledgers[i as int].roster(),
                    m <= roster@.len(),
                    forall|b: int|
                        0 <= b < m ==> lists(
                            self@.joins,
                            (#[trigger] self@.ledgers[i as int].members[b]).address@,
                            self@.ledgers[i as int].group.group_id@,
                        ),
                decreases roster@.len() - m,
            {
                if find_pair(&self.joins, &roster[m], self.ledgers[i].group_id()).is_none() {
                    assert(roster@[m as int] == self@.ledgers[i as int].members[m as int].address);
                    return false;
                }
                assert(roster@[m as int] == self@.ledgers[i as int].members[m as int].address);
                m += 1;
            }
            i += 1;
        }
        true
    }

    /// Whether the contract obeys its rules between operations.
    fn is_valid(&self) -> (ok: bool)
        requires
            forall|i: int| 0 <= i < self@.ledgers.len() ==> (#[trigger] self@.ledgers[i]).wf(),
        ensures
            ok == self.wf(),
    {
        if !self.identifiers_valid() || !all_distinct(&self.joins) {
            return false;
        }
        if !self.admissions_valid() {
            proof {
                let k = choose|k: int|
                    0 <= k < self@.joins.len() && !self@.is_member(
                        (#[trigger] self@.joins[k]).0,
                        self@.joins[k].1,
                    );
                assert(self@.listed(self@.joins[k].0, self@.joins[k].1));
            }
            return false;
        }
        if !self.rosters_valid() {
            proof {
                let (i, m) = choose|i: int, m: int|
                    0 <= i < self@.ledgers.len() && 0 <= m < self@.ledgers[i].members.len()
                        && !lists(
                        self@.joins,
                        (#[trigger] self@.ledgers[i].members[m]).address@,
                        self@.ledgers[i].group.group_id@,
                    );
                let user = self@.ledgers[i].members[m].address@;
                let id = self@.ledgers[i].group.group_id@;
                assert(self@.ledgers[i].has_member(user));
                assert(self@.is_member(user, id));
                assert(!self@.listed(user, id));
            }
            return false;
        }
        proof {
            let c = self@;
            assert forall|user: Seq<char>, id: Seq<char>|
                #![trigger c.listed(user, id)]
                #![trigger c.is_member(user, id)]
                c.listed(user, id) <==> c.is_member(user, id) by {
                if c.listed(user, id) {
                    let k = choose|k: int|
                        0 <= k < c.joins.len() && #[trigger] c.joins[k] == (user, id);
                    assert(c.is_member(c.joins[k].0, c.joins[k].1));
                }
                if c.is_member(user, id) {
                    let i = choose|i: int|
                        0 <= i < c.ledgers.len() && (#[trigger] c.ledgers[i]).group.group_id@
                            == id && c.ledgers[i].has_member(user);
                    let m = choose|m: int|
                        0 <= m < c.ledgers[i].members.len() && (
                        #[trigger] c.ledgers[i].members[m]).address@ == user;
                    assert(lists(c.joins, c.ledgers[i].members[m].address@, id));
                }
            }
        }
        true
    }

    /// The contract with these ledgers, in order of creation, and these
    /// admissions, if no two groups share an identifier and the admissions
    /// list exactly the members of the groups, each once.
    pub fn from_parts(ledgers: Vec<GroupLedger>, joins: Vec<(Address, String)>) -> (result: Option<
        SavingsContract,
    >)
        requires
            forall|i: int| 0 <= i < ledgers@.len() ==> (#[trigger] ledgers@[i]).wf(),
        ensures
            match result {
                Some(contract) => {
                    &&& contract.wf()
                    &&& contract@ == (ContractView {
                        ledgers: ledgers@.map_values(|l: GroupLedger| l@),
                        joins: pairs(joins@),
                    })
                },
                None => !(ContractView {
                    ledgers: ledgers@.map_values(|l: GroupLedger| l@),
                    joins: pairs(joins@),
                }).wf(),
            },
    {
        let contract = SavingsContract { ledgers, joins };
        if contract.is_valid() {
            Some(contract)
        } else {
            None
        }
    }

    /// Every admission, as member and group, in the order in which they
    /// happened.
    pub fn get_admissions(&self) -> (joins: Vec<(Address, String)>)
        ensures
            pairs(joins@) == self@.joins,
    {
        copy_pairs(&self.joins)
    }

    /// Whether a group goes by `group_id`.
    pub fn has_group(&self, group_id: &String) -> (found: bool)
        ensures
            found == self@.has_group(group_id@),
    {
        self.find_group(group_id).is_some()
    }
}

/// When `round` of the group `group_id` falls due. Where there is no such
/// group, or the group has no such round, the answer is that the group is not
/// found.
pub fn get_round_deadline(contract: &SavingsContract, group_id: &String, round: u32) -> (result:
    Result<u64, Error>)
    requires
        contract.wf(),
    ensures
        match result {
            Ok(due) => {
                &&& contract@.find(group_id@) matches Some(i)
                &&& contract@.ledgers[i].deadline_of(round) == Some(due as int)
            },
            Err(e) => {
                &&& e == Error::GroupNotFound
                &&& match contract@.find(group_id@) {
                    Some(i) => contract@.ledgers[i].deadline_of(round) is None,
                    None => true,
                }
            },
        },
{
    match contract.find_group(group_id) {
        Some(i) => contract.ledgers[i].get_round_deadline(round),
        None => Err(Error::GroupNotFound),
    }
}

/// The identifiers of the groups that `user` is a member of, in the order in
/// which `user` joined them.
pub fn get_user_groups(contract: &SavingsContract, user: &Address) -> (ids: Vec<String>)
    ensures
        texts(ids@) == groups_of(contract@.joins, user@),
{
    listed_groups(&contract.joins, user)
}

/// The identifiers of all groups, in order of creation.
pub fn get_all_groups(contract: &SavingsContract) -> (ids: Vec<String>)
    ensures
        ids@ == contract@.group_ids(),
{
    let mut ids: Vec<String> = Vec::new();
    let mut i: usize = 0;
    while i < contract.ledgers.len()
        invariant
            i <= contract.ledgers@.len(),
            ids@.len() == i,
            forall|j: int| 0 <= j < i ==> #[trigger] ids@[j] == contract@.ledgers[j].group.group_id,
        decreases contract.ledgers@.len() - i,
    {
        ids.push(contract.ledgers[i].group_id().clone());
        i += 1;
    }
    assert(ids@ =~= contract@.group_ids());
    ids
}

} // verus!
