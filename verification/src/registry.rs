//! The group registry: a directory of savings groups, by the address of the
//! contract that runs each, and of the groups each user belongs to.

use vstd::prelude::*;
use crate::membership::{
    all_distinct, copy_pairs, distinct, find_pair, groups_of, listed_groups, lists, pairs, texts,
};

verus! {

/// An account or contract address, in its textual form.
pub type Address = String;

/// Why the registry refused a request.
#[derive(Clone, Copy, Debug, PartialEq, Eq, PartialOrd, Ord, Structural)]
pub enum Error {
    GroupAlreadyRegistered,
    GroupNotFound,
    NotGroupAdmin,
    UserNotInGroup,
    InvalidAddress,
}

/// What the registry knows of one group.
#[derive(Debug, PartialEq, Eq)]
pub struct GroupInfo {
    pub contract_address: Address,
    pub group_id: String,
    pub name: String,
    pub admin: Address,
    pub is_public: bool,
    pub created_at: u64,
    pub total_members: u32,
}

impl Clone for GroupInfo {
    fn clone(&self) -> (copy: Self)
        ensures
            copy == *self,
    {
        GroupInfo {
            contract_address: self.contract_address.clone(),
            group_id: self.group_id.clone(),
            name: self.name.clone(),
            admin: self.admin.clone(),
            is_public: self.is_public,
            created_at: self.created_at,
            total_members: self.total_members,
        }
    }
}

/// The state of a registry.
pub struct RegistryView {
    /// The registered groups, in order of registration.
    pub groups: Seq<GroupInfo>,
    /// Who belongs to which group, as user and contract address, in the
    /// order in which it was entered.
    pub members: Seq<(Seq<char>, Seq<char>)>,
}

/// Those of `groups` that are public, in the same order.
pub open spec fn public_among(groups: Seq<GroupInfo>) -> Seq<GroupInfo>
    decreases groups.len(),
{
    if groups.len() == 0 {
        Seq::empty()
    } else if groups.last().is_public {
        public_among(groups.drop_last()).push(groups.last())
    } else {
        public_among(groups.drop_last())
    }
}

impl RegistryView {
    /// Whether a group is registered under `contract_address`.
    pub open spec fn has_group(self, contract_address: Seq<char>) -> bool {
        exists|i: int|
            0 <= i < self.groups.len() && (#[trigger] self.groups[i]).contract_address@
                == contract_address
    }

    /// Where the group registered under `contract_address` stands, if there
    /// is one.
    pub open spec fn find(self, contract_address: Seq<char>) -> Option<int> {
        if self.has_group(contract_address) {
            Some(
                choose|i: int|
                    0 <= i < self.groups.len() && (#[trigger] self.groups[i]).contract_address@
                        == contract_address,
            )
        } else {
            None
        }
    }

    /// The addresses of all registered groups, in order of registration.
    pub open spec fn addresses(self) -> Seq<Address> {
        self.groups.map_values(|g: GroupInfo| g.contract_address)
    }

    /// The registry after a group has been registered with the record `info`.
    pub open spec fn registered(self, info: GroupInfo) -> RegistryView {
        RegistryView {
            groups: self.groups.push(info),
            members: self.members.push((info.admin@, info.contract_address@)),
        }
    }

    /// The registry after `member` has been entered for the group under
    /// `contract_address`: entered once, however often it is asked.
    pub open spec fn added(self, contract_address: Seq<char>, member: Seq<char>) -> RegistryView {
        if !self.has_group(contract_address) || lists(self.members, member, contract_address) {
            self
        } else {
            RegistryView {
                groups: self.groups,
                members: self.members.push((member, contract_address)),
            }
        }
    }

    /// What holds of a registry between operations: no two groups under one
    /// address, no user entered twice for one group, nobody entered for a
    /// group that is not registered, and every admin entered for the groups
    /// that they registered.
    pub open spec fn wf(self) -> bool {
        &&& self.groups.len() <= u32::MAX
        &&& forall|i: int, j: int|
            0 <= i < j < self.groups.len() ==> (#[trigger] self.groups[i]).contract_address@ != (
            #[trigger] self.groups[j]).contract_address@
        &&& distinct(self.members)
        &&& forall|k: int|
            0 <= k < self.members.len() ==> self.has_group((#[trigger] self.members[k]).1)
        &&& forall|i: int|
            0 <= i < self.groups.len() ==> lists(
                self.members,
                (#[trigger] self.groups[i]).admin@,
                self.groups[i].contract_address@,
            )
    }
}

/// A registry of savings groups.
pub struct GroupRegistry {
    groups: Vec<GroupInfo>,
    members: Vec<(Address, Address)>,
}

impl View for GroupRegistry {
    type V = RegistryView;

    closed spec fn view(&self) -> RegistryView {
        RegistryView { groups: self.groups@, members: pairs(self.members@) }
    }
}

impl GroupRegistry {
    /// Whether the registry obeys its rules between operations.
    pub open spec fn wf(&self) -> bool {
        self@.wf()
    }

    /// A registry without groups.
    pub fn new() -> (registry: GroupRegistry)
        ensures
            registry.wf(),
            registry@.groups.len() == 0,
            registry@.members.len() == 0,
    {
        GroupRegistry { groups: Vec::new(), members: Vec::new() }
    }

    /// Where the group registered under `contract_address` stands, if there
    /// is one.
    fn find_group(&self, contract_address: &Address) -> (found: Option<usize>)
        ensures
            match found {
                Some(i) => i < self@.groups.len() && self@.groups[i as int].contract_address@
                    == contract_address@,
                None => !self@.has_group(contract_address@),
            },
            self.wf() ==> self@.find(contract_address@) == match found {
                Some(i) => Some(i as int),
                None => None::<int>,
            },
    {
        let mut i: usize = 0;
        while i < self.groups.len()
            invariant
                i <= self.groups@.len(),
                forall|j: int|
                    0 <= j < i ==> (#[trigger] self.groups@[j]).contract_address@
                        != contract_address@,
            decreases self.groups@.len() - i,
        {
            if self.groups[i].contract_address == *contract_address {
                return Some(i);
            }
            i += 1;
        }
        None
    }

    /// Whether the registry obeys its rules between operations.
    fn is_valid(&self) -> (ok: bool)
        ensures
            ok == self.wf(),
    {
        if self.groups.len() > u32::MAX as usize || !all_distinct(&self.members) {
            return false;
        }
        let mut j: usize = 0;
        while j < self.groups.len()
            invariant
                j <= self.groups@.len(),
                forall|a: int, b: int|
                    0 <= a < b < j ==> (#[trigger] self.groups@[a]).contract_address@ != (
                    #[trigger] self.groups@[b]).contract_address@,
                forall|a: int|
                    0 <= a < j ==> lists(
                        self@.members,
                        (#[trigger] self.groups@[a]).admin@,
                        self.groups@[a].contract_address@,
                    ),
            decreases self.groups@.len() - j,
        {
            let mut i: usize = 0;
            while i < j
                invariant
                    i <= j < self.groups@.len(),
                    forall|a: int|
                        0 <= a < i ==> (#[trigger] self.groups@[a]).contract_address@
                            != self.groups@[j as int].contract_address@,
                decreases j - i,
            {
                if self.groups[i].contract_address == self.groups[j].contract_address {
                    return false;
                }
                i += 1;
            }
            if find_pair(&self.members, &self.groups[j].admin, &self.groups[j].contract_address)
                .is_none() {
                return false;
            }
            j += 1;
        }
        let mut k: usize = 0;
        while k < self.members.len()
            invariant
                k <= self.members@.len(),
                forall|a: int| 0 <= a < k ==> self@.has_group((#[trigger] self@.members[a]).1),
            decreases self.members@.len() - k,
        {
            if self.find_group(&self.members[k].1).is_none() {
                assert(!self@.has_group(self@.members[k as int].1));
                return false;
            }
            k += 1;
        }
        true
    }

    /// The registry with these groups, in order of registration, and these
    /// entries of user and group, if they obey the rules of a registry.
    pub fn from_parts(groups: Vec<GroupInfo>, members: Vec<(Address, Address)>) -> (result: Option<
        GroupRegistry,
    >)
        ensures
            match result {
                Some(registry) => {
                    &&& registry.wf()
                    &&& registry@ == (RegistryView { groups: groups@, members: pairs(members@) })
                },
                None => !(RegistryView { groups: groups@, members: pairs(members@) }).wf(),
            },
    {
        let registry = GroupRegistry { groups, members };
        if registry.is_valid() {
            Some(registry)
        } else {
            None
        }
    }

    /// Who belongs to which group, as user and contract address, in the
    /// order in which it was entered.
    pub fn get_memberships(&self) -> (members: Vec<(Address, Address)>)
        ensures
            pairs(members@) == self@.members,
    {
        copy_pairs(&self.members)
    }

    /// Registers the group run by the contract at `contract_address`, at
    /// `now`, and enters `admin` for it. An address that is registered
    /// already is refused, and nothing changes. Only for a caller whom the
    /// host has authenticated as `admin`, which `authorized` says.
    pub fn register_group(
        &mut self,
        contract_address: Address,
        group_id: String,
        name: String,
        admin: Address,
        is_public: bool,
        total_members: u32,
        now: u64,
        authorized: bool,
    ) -> (result: Result<(), Error>)
        requires
            authorized,
            old(self).wf(),
            old(self)@.groups.len() < u32::MAX,
        ensures
            final(self).wf(),
            match result {
                Ok(()) => {
                    &&& !old(self)@.has_group(contract_address@)
                    &&& final(self)@ == old(self)@.registered(
                        GroupInfo {
                            contract_address,
                            group_id,
                            name,
                            admin,
                            is_public,
                            created_at: now,
                            total_members,
                        },
                    )
                },
                Err(e) => {
                    &&& e == Error::GroupAlreadyRegistered
                    &&& old(self)@.has_group(contract_address@)
                    &&& final(self)@ == old(self)@
                },
            },
    {
        if self.find_group(&contract_address).is_some() {
            return Err(Error::GroupAlreadyRegistered);
        }
        let group_info = GroupInfo {
            contract_address: contract_address.clone(),
            group_id,
            name,
            admin: admin.clone(),
            is_public,
            created_at: now,
            total_members,
        };
        proof {
            lemma_registered_wf(self@, group_info);
        }
        self.groups.push(group_info);
        self.members.push((admin, contract_address));
        assert(self@.members =~= old(self)@.registered(group_info).members);
        Ok(())
    }

    /// Enters `member` for the group under `contract_address`. A member who
    /// is entered already stays entered once. An address that is not
    /// registered is refused, and nothing changes. Only for a caller whom the
    /// host has authenticated as `member`, which `authorized` says.
    pub fn add_member(
        &mut self,
        contract_address: Address,
        member: Address,
        authorized: bool,
    ) -> (result: Result<(), Error>)
        requires
            authorized,
            old(self).wf(),
        ensures
            final(self).wf(),
            final(self)@ == old(self)@.added(contract_address@, member@),
            result == if old(self)@.has_group(contract_address@) {
                Ok::<(), Error>(())
            } else {
                Err::<(), Error>(Error::GroupNotFound)
            },
    {
        if self.find_group(&contract_address).is_none() {
            return Err(Error::GroupNotFound);
        }
        if find_pair(&self.members, &member, &contract_address).is_some() {
            return Ok(());
        }
        proof {
            lemma_added_wf(self@, contract_address@, member@);
        }
        self.members.push((member, contract_address));
        assert(self@.members =~= old(self)@.added(contract_address@, member@).members);
        Ok(())
    }

    /// The addresses of the groups that `user` belongs to, in the order in
    /// which `user` was entered for them.
    pub fn get_user_groups(&self, user: &Address) -> (groups: Vec<Address>)
        ensures
            texts(groups@) == groups_of(self@.members, user@),
    {
        listed_groups(&self.members, user)
    }

    /// The records of the public groups, in order of registration.
    pub fn get_all_public_groups(&self) -> (public_groups: Vec<GroupInfo>)
        ensures
            public_groups@ == public_among(self@.groups),
    {
        let mut public_groups: Vec<GroupInfo> = Vec::new();
        let mut i: usize = 0;
        while i < self.groups.len()
            invariant
                i <= self.groups@.len(),
                public_groups@ == public_among(self.groups@.take(i as int)),
            decreases self.groups@.len() - i,
        {
            proof {
                assert(self.groups@.take(i + 1).drop_last() =~= self.groups@.take(i as int));
            }
            if self.groups[i].is_public {
                public_groups.push(self.groups[i].clone());
            }
            i += 1;
        }
        assert(self.groups@.take(i as int) =~= self.groups@);
        public_groups
    }

    /// The record of the group under `contract_address`.
    pub fn get_group_info(&self, contract_address: &Address) -> (result: Result<GroupInfo, Error>)
        requires
            self.wf(),
        ensures
            match result {
                Ok(info) => {
                    &&& self@.find(contract_address@) matches Some(i)
                    &&& info == self@.groups[i]
                },
                Err(e) => e == Error::GroupNotFound && !self@.has_group(contract_address@),
            },
    {
        match self.find_group(contract_address) {
            Some(i) => Ok(self.groups[i].clone()),
            None => Err(Error::GroupNotFound),
        }
    }

    /// How many groups are registered.
    pub fn get_group_count(&self) -> (count: u32)
        requires
            self.wf(),
        ensures
            count == self@.groups.len(),
    {
        self.groups.len() as u32
    }

    /// The addresses of all registered groups, public or not, in order of
    /// registration.
    pub fn get_all_groups(&self) -> (addresses: Vec<Address>)
        ensures
            addresses@ == self@.addresses(),
    {
        let mut addresses: Vec<Address> = Vec::new();
        let mut i: usize = 0;
        while i < self.groups.len()
            invariant
                i <= self.groups@.len(),
                addresses@.len() == i,
                forall|j: int|
                    0 <= j < i ==> #[trigger] addresses@[j] == self.groups@[j].contract_address,
            decreases self.groups@.len() - i,
        {
            addresses.push(self.groups[i].contract_address.clone());
            i += 1;
        }
        assert(addresses@ =~= self@.addresses());
        addresses
    }

    /// The records of all registered groups, public or not, in order of
    /// registration.
    pub fn get_all_groups_info(&self) -> (groups_info: Vec<GroupInfo>)
        ensures
            groups_info@ == self@.groups,
    {
        let mut groups_info: Vec<GroupInfo> = Vec::new();
        let mut i: usize = 0;
        while i < self.groups.len()
            invariant
                i <= self.groups@.len(),
                groups_info@.len() == i,
                forall|j: int| 0 <= j < i ==> #[trigger] groups_info@[j] == self.groups@[j],
            decreases self.groups@.len() - i,
        {
            groups_info.push(self.groups[i].clone());
            i += 1;
        }
        assert(groups_info@ =~= self@.groups);
        groups_info
    }
}

/// Registering a group under a new address keeps a registry well formed.
proof fn lemma_registered_wf(r: RegistryView, info: GroupInfo)
    requires
        r.wf(),
        r.groups.len() < u32::MAX,
        !r.has_group(info.contract_address@),
    ensures
        r.registered(info).wf(),
{
    let d = r.registered(info);
    let n = r.groups.len() as int;
    let m = r.members.len() as int;
    assert forall|k: int| 0 <= k < d.members.len() implies d.has_group(
        (#[trigger] d.members[k]).1,
    ) by {
        if k < m {
            assert(r.has_group(r.members[k].1));
            let i = choose|i: int|
                0 <= i < r.groups.len() && (#[trigger] r.groups[i]).contract_address@
                    == r.members[k].1;
            assert(d.groups[i].contract_address@ == d.members[k].1);
        } else {
            assert(d.groups[n].contract_address@ == d.members[k].1);
        }
    }
    assert forall|a: int, b: int| 0 <= a < b < d.members.len() implies #[trigger] d.members[a]
        != #[trigger] d.members[b] by {
        if b == m {
            assert(r.has_group(r.members[a].1));
        }
    }
    assert forall|i: int| 0 <= i < d.groups.len() implies lists(
        d.members,
        (#[trigger] d.groups[i]).admin@,
        d.groups[i].contract_address@,
    ) by {
        if i < n {
            let k = choose|k: int|
                0 <= k < r.members.len() && #[trigger] r.members[k] == (
                    r.groups[i].admin@,
                    r.groups[i].contract_address@,
                );
            assert(d.members[k] == (d.groups[i].admin@, d.groups[i].contract_address@));
        } else {
            assert(d.members[m] == (d.groups[i].admin@, d.groups[i].contract_address@));
        }
    }
}

/// Entering a member for a registered group keeps a registry well formed.
proof fn lemma_added_wf(r: RegistryView, contract_address: Seq<char>, member: Seq<char>)
    requires
        r.wf(),
    ensures
        r.added(contract_address, member).wf(),
{
    let d = r.added(contract_address, member);
    if d != r {
        let m = r.members.len() as int;
        assert(d.groups == r.groups);
        assert(r.has_group(contract_address));
        assert forall|k: int| 0 <= k < d.members.len() implies d.has_group(
            (#[trigger] d.members[k]).1,
        ) by {
            if k < m {
                assert(r.has_group(r.members[k].1));
                assert(d.members[k] == r.members[k]);
            } else {
                assert(d.members[k].1 == contract_address);
            }
        }
        assert forall|i: int| 0 <= i < d.groups.len() implies lists(
            d.members,
            (#[trigger] d.groups[i]).admin@,
            d.groups[i].contract_address@,
        ) by {
            let k = choose|k: int|
                0 <= k < r.members.len() && #[trigger] r.members[k] == (
                    r.groups[i].admin@,
                    r.groups[i].contract_address@,
                );
            assert(d.members[k] == (d.groups[i].admin@, d.groups[i].contract_address@));
        }
    }
}

/// Entering a member for a group a second time changes nothing.
pub proof fn law_add_member_idempotent(
    r: RegistryView,
    contract_address: Seq<char>,
    member: Seq<char>,
)
    ensures
        r.added(contract_address, member).added(contract_address, member) == r.added(
            contract_address,
            member,
        ),
{
    let d = r.added(contract_address, member);
    if d != r {
        assert(d.members[r.members.len() as int] == (member, contract_address));
        assert(d.has_group(contract_address)) by {
            let i = choose|i: int|
                0 <= i < r.groups.len() && (#[trigger] r.groups[i]).contract_address@
                    == contract_address;
            assert(d.groups[i].contract_address@ == contract_address);
        }
    }
}

/// The groups listed for a user are exactly those for which the user has
/// been entered, and each of them is registered.
pub proof fn law_user_groups_registered(r: RegistryView, user: Seq<char>, group: Seq<char>)
    requires
        r.wf(),
    ensures
        groups_of(r.members, user).contains(group) <==> lists(r.members, user, group),
        lists(r.members, user, group) ==> r.has_group(group),
{
    crate::membership::lemma_groups_of(r.members, user, group);
    if lists(r.members, user, group) {
        let k = choose|k: int| 0 <= k < r.members.len() && #[trigger] r.members[k] == (user, group);
        assert(r.has_group(r.members[k].1));
    }
}

} // verus!
