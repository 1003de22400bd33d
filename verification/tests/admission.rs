use rosca::savings::validation::{count_paid, fits_machine, roster_valid, settings_valid};
use rosca::savings::contract::{get_all_groups, get_user_groups, SavingsContract};
use rosca::savings::ledger::GroupLedger;
use rosca::savings::types::{
    Address, Error, Frequency, GroupStatus, Member, MemberStatus, SavingsGroup,
};

const AMOUNT: i128 = 100_000_000;

fn address(tag: &str) -> Address {
    format!("G{}", tag)
}

fn id(text: &str) -> String {
    String::from(text)
}

fn open_group(contract: &mut SavingsContract, group: &str, admin: &Address, size: u32) {
    contract
        .create_group(
            admin.clone(),
            id(group),
            id("Name"),
            AMOUNT,
            size,
            Frequency::Monthly,
            86_400,
            true,
            0,
            true,
        )
        .unwrap();
}

#[test]
fn create_group_returns_the_open_group() {
    let mut contract = SavingsContract::new();
    let admin = address("A");
    let created = contract
        .create_group(
            admin.clone(),
            id("g"),
            id("Name"),
            AMOUNT,
            5,
            Frequency::BiWeekly,
            86_400,
            false,
            7,
            true,
        )
        .unwrap();
    let expected = SavingsGroup {
        group_id: id("g"),
        admin: admin.clone(),
        name: id("Name"),
        contribution_amount: AMOUNT,
        total_members: 5,
        frequency: Frequency::BiWeekly,
        start_timestamp: 86_400,
        status: GroupStatus::Open,
        is_public: false,
        current_round: 0,
        platform_fee_percent: 200,
    };
    assert_eq!(created, expected);
    assert_eq!(contract.get_group(&id("g")), Ok(expected));
    assert!(contract.has_group(&id("g")));
    assert!(!contract.has_group(&id("h")));
    assert_eq!(
        contract.get_member(&admin, &id("g")),
        Ok(Member {
            address: admin.clone(),
            join_timestamp: 7,
            join_order: 0,
            status: MemberStatus::Active,
            total_contributed: 0,
            has_received_payout: false,
            payout_round: 0,
        })
    );
    assert_eq!(get_all_groups(&contract), vec![id("g")]);
    assert_eq!(get_user_groups(&contract, &admin), vec![id("g")]);
}

#[test]
fn create_group_refusals_in_order() {
    let mut contract = SavingsContract::new();
    let a = address("A");
    let mut attempt = |amount: i128, size: u32, start: u64, now: u64| {
        contract
            .create_group(
                a.clone(),
                id("g"),
                id("Name"),
                amount,
                size,
                Frequency::Weekly,
                start,
                true,
                now,
                true,
            )
            .map(|_| ())
    };
    assert_eq!(attempt(9_999_999, 2, 5, 5), Err(Error::ContributionTooLow));
    assert_eq!(attempt(-1, 3, 10, 5), Err(Error::ContributionTooLow));
    assert_eq!(attempt(10_000_000, 2, 5, 5), Err(Error::InvalidMemberCount));
    assert_eq!(attempt(10_000_000, 21, 5, 5), Err(Error::InvalidMemberCount));
    assert_eq!(attempt(10_000_000, 0, 10, 5), Err(Error::InvalidMemberCount));
    assert_eq!(attempt(10_000_000, 3, 5, 5), Err(Error::StartDateMustBeFuture));
    assert_eq!(attempt(10_000_000, 20, 4, 5), Err(Error::StartDateMustBeFuture));
    assert_eq!(attempt(10_000_000, 20, 6, 5), Ok(()));
    assert_eq!(get_all_groups(&contract), vec![id("g")]);
    assert_eq!(contract.get_members(&id("g")).len(), 1);
}

#[test]
fn refused_creation_leaves_no_group() {
    let mut contract = SavingsContract::new();
    let a = address("A");
    let refused = contract.create_group(
        a.clone(),
        id("g"),
        id("Name"),
        1,
        5,
        Frequency::Weekly,
        10,
        true,
        0,
        true,
    );
    assert_eq!(refused, Err(Error::ContributionTooLow));
    assert!(!contract.has_group(&id("g")));
    assert_eq!(get_all_groups(&contract).len(), 0);
    assert_eq!(get_user_groups(&contract, &a).len(), 0);
    assert_eq!(contract.get_group(&id("g")), Err(Error::GroupNotFound));
    assert_eq!(contract.get_members(&id("g")).len(), 0);
}

#[test]
fn members_are_ranked_in_order_of_joining() {
    let mut contract = SavingsContract::new();
    let admin = address("A");
    open_group(&mut contract, "g", &admin, 5);
    let joiners = [address("B"), address("C"), address("D"), address("E")];
    for (k, who) in joiners.iter().enumerate() {
        assert_eq!(contract.join_group(who.clone(), &id("g"), 10 + k as u64, true), Ok(()));
        let record = contract.get_member(who, &id("g")).unwrap();
        assert_eq!(record.join_order, k as u32 + 1);
        assert_eq!(record.join_timestamp, 10 + k as u64);
        assert_eq!(record.status, MemberStatus::Active);
        assert_eq!(contract.get_members(&id("g")).len(), k + 2);
    }
    assert_eq!(contract.get_member(&admin, &id("g")).unwrap().join_order, 0);
    let roster = contract.get_members(&id("g"));
    assert_eq!(roster[0], admin);
    assert_eq!(&roster[1..], &joiners[..]);
    let settings = contract.get_group(&id("g")).unwrap();
    assert_eq!(settings.status, GroupStatus::Active);
    assert_eq!(settings.current_round, 1);
}

#[test]
fn group_opens_its_first_round_only_when_full() {
    let mut contract = SavingsContract::new();
    let admin = address("A");
    open_group(&mut contract, "g", &admin, 3);
    contract.join_group(address("B"), &id("g"), 0, true).unwrap();
    let settings = contract.get_group(&id("g")).unwrap();
    assert_eq!(settings.status, GroupStatus::Open);
    assert_eq!(settings.current_round, 0);
    contract.join_group(address("C"), &id("g"), 0, true).unwrap();
    let settings = contract.get_group(&id("g")).unwrap();
    assert_eq!(settings.status, GroupStatus::Active);
    assert_eq!(settings.current_round, 1);
}

#[test]
fn a_full_group_refuses_strangers_as_full() {
    let mut contract = SavingsContract::new();
    let admin = address("A");
    open_group(&mut contract, "g", &admin, 3);
    contract.join_group(address("B"), &id("g"), 0, true).unwrap();
    contract.join_group(address("C"), &id("g"), 0, true).unwrap();
    assert_eq!(contract.join_group(address("D"), &id("g"), 0, true), Err(Error::GroupIsFull));
    assert_eq!(contract.join_group(address("E"), &id("g"), 9, true), Err(Error::GroupIsFull));
    assert_eq!(contract.get_members(&id("g")).len(), 3);
    assert_eq!(get_user_groups(&contract, &address("D")).len(), 0);
    assert_eq!(contract.get_member(&address("D"), &id("g")), Err(Error::NotMember));
}

#[test]
fn a_member_is_refused_as_member_whatever_the_status() {
    let mut contract = SavingsContract::new();
    let admin = address("A");
    open_group(&mut contract, "g", &admin, 3);
    assert_eq!(contract.join_group(admin.clone(), &id("g"), 0, true), Err(Error::AlreadyMember));
    contract.join_group(address("B"), &id("g"), 0, true).unwrap();
    assert_eq!(contract.join_group(address("B"), &id("g"), 0, true), Err(Error::AlreadyMember));
    contract.join_group(address("C"), &id("g"), 0, true).unwrap();
    // active and full
    assert_eq!(contract.join_group(address("B"), &id("g"), 0, true), Err(Error::AlreadyMember));
    assert_eq!(contract.join_group(admin.clone(), &id("g"), 0, true), Err(Error::AlreadyMember));
    assert_eq!(contract.get_members(&id("g")).len(), 3);
    assert_eq!(get_user_groups(&contract, &address("B")), vec![id("g")]);
}

#[test]
fn joining_a_group_that_does_not_exist() {
    let mut contract = SavingsContract::new();
    open_group(&mut contract, "g", &address("A"), 3);
    assert_eq!(contract.join_group(address("B"), &id("h"), 0, true), Err(Error::GroupNotFound));
    assert_eq!(get_user_groups(&contract, &address("B")).len(), 0);
    assert_eq!(contract.get_member(&address("B"), &id("h")), Err(Error::NotMember));
}

#[test]
fn a_paused_group_takes_no_members_and_no_payments() {
    let admin = address("A");
    let group = SavingsGroup {
        group_id: id("g"),
        admin: admin.clone(),
        name: id("Name"),
        contribution_amount: AMOUNT,
        total_members: 3,
        frequency: Frequency::Weekly,
        start_timestamp: 100,
        status: GroupStatus::Paused,
        is_public: true,
        current_round: 0,
        platform_fee_percent: 200,
    };
    let members = vec![Member {
        address: admin.clone(),
        join_timestamp: 0,
        join_order: 0,
        status: MemberStatus::Active,
        total_contributed: 0,
        has_received_payout: false,
        payout_round: 0,
    }];
    let rounds = vec![
        rosca::savings::ledger::Round::new(vec![], vec![]),
        rosca::savings::ledger::Round::new(vec![], vec![]),
        rosca::savings::ledger::Round::new(vec![], vec![]),
    ];
    let mut ledger = GroupLedger::from_parts(group, members, rounds).unwrap();
    assert_eq!(ledger.join_group(address("B"), 0), Err(Error::GroupNotAcceptingMembers));
    assert_eq!(ledger.join_group(admin.clone(), 0), Err(Error::AlreadyMember));
    assert_eq!(ledger.contribute(admin.clone(), 0), Err(Error::GroupNotActive));
    assert_eq!(ledger.get_members(), vec![admin.clone()]);

    let mut contract =
        SavingsContract::from_parts(vec![ledger], vec![(admin.clone(), id("g"))]).unwrap();
    assert_eq!(
        contract.join_group(address("B"), &id("g"), 0, true),
        Err(Error::GroupNotAcceptingMembers)
    );
    assert_eq!(contract.get_group(&id("g")).unwrap().status, GroupStatus::Paused);
}

#[test]
fn ledger_of_one_group_on_its_own() {
    let admin = address("A");
    let mut ledger = GroupLedger::create_group(
        admin.clone(),
        id("g"),
        id("Name"),
        AMOUNT,
        3,
        Frequency::Weekly,
        100,
        true,
        0,
    )
    .unwrap();
    assert_eq!(ledger.group_id(), &id("g"));
    assert!(ledger.has_member(&admin));
    assert!(!ledger.has_member(&address("B")));
    assert_eq!(ledger.join_group(address("B"), 1), Ok(()));
    assert_eq!(ledger.join_group(address("C"), 2), Ok(()));
    assert_eq!(ledger.get_group().status, GroupStatus::Active);
    assert_eq!(ledger.get_round_deadline(1), Ok(100 + 604_800));
    assert_eq!(ledger.get_round_deadline(3), Ok(100 + 3 * 604_800));
    assert_eq!(ledger.get_round_deadline(4), Err(Error::GroupNotFound));
    assert_eq!(ledger.get_round_deadline(0), Err(Error::GroupNotFound));
    assert_eq!(ledger.contribute(address("B"), 100), Ok(()));
    assert_eq!(ledger.contribute(address("C"), 100), Ok(()));
    assert_eq!(ledger.get_round_payouts(1).len(), 0);
    assert_eq!(ledger.contribute(admin.clone(), 100), Ok(()));
    assert_eq!(ledger.get_round_payouts(1)[0].recipient, admin);
    assert_eq!(ledger.get_round_contributions(1)[0].member, address("B"));
    assert_eq!(ledger.get_member(&address("C")).unwrap().total_contributed, AMOUNT);
    assert_eq!(ledger.get_member(&address("D")), Err(Error::NotMember));
    assert_eq!(
        GroupLedger::create_group(admin, id("g"), id("N"), 1, 3, Frequency::Weekly, 100, true, 0)
            .err(),
        Some(Error::ContributionTooLow)
    );
}

#[test]
fn machine_limits_of_settings() {
    assert!(fits_machine(AMOUNT, 3, 200, 1_000, Frequency::Weekly));
    assert!(fits_machine(i128::MAX / 4_000, 20, 200, 0, Frequency::Monthly));
    assert!(!fits_machine(i128::MAX / 4_000 + 1, 20, 200, 0, Frequency::Monthly));
    assert!(!fits_machine(i128::MAX / 2, 3, 0, 0, Frequency::Monthly));
    assert!(!fits_machine(-1, 3, 200, 0, Frequency::Monthly));
    let last = u64::MAX - 3 * 604_800 - 259_200;
    assert!(fits_machine(AMOUNT, 3, 200, last, Frequency::Weekly));
    assert!(!fits_machine(AMOUNT, 3, 200, last + 1, Frequency::Weekly));
    assert!(!fits_machine(AMOUNT, 3, 200, u64::MAX, Frequency::Weekly));
}

#[test]
fn settings_and_rosters_are_checked() {
    let good = SavingsGroup {
        group_id: id("g"),
        admin: address("A"),
        name: id("Name"),
        contribution_amount: 10_000_000,
        total_members: 3,
        frequency: Frequency::Weekly,
        start_timestamp: 100,
        status: GroupStatus::Open,
        is_public: true,
        current_round: 0,
        platform_fee_percent: 10_000,
    };
    assert!(settings_valid(&good));
    assert!(!settings_valid(&SavingsGroup { total_members: 2, ..good.clone() }));
    assert!(!settings_valid(&SavingsGroup { total_members: 21, ..good.clone() }));
    assert!(!settings_valid(&SavingsGroup { contribution_amount: 9_999_999, ..good.clone() }));
    assert!(!settings_valid(&SavingsGroup { platform_fee_percent: 10_001, ..good.clone() }));
    assert!(!settings_valid(&SavingsGroup { current_round: 4, ..good.clone() }));
    assert!(settings_valid(&SavingsGroup { current_round: 3, ..good.clone() }));
    assert!(!settings_valid(&SavingsGroup { start_timestamp: u64::MAX, ..good.clone() }));

    let member = |tag: &str, rank: u32, status: MemberStatus| Member {
        address: address(tag),
        join_timestamp: 0,
        join_order: rank,
        status,
        total_contributed: 0,
        has_received_payout: false,
        payout_round: 0,
    };
    let paid = MemberStatus::PaidCurrentRound;
    let roster = vec![
        member("A", 0, paid),
        member("B", 1, MemberStatus::Active),
        member("C", 2, paid),
    ];
    assert!(roster_valid(&roster));
    assert_eq!(count_paid(&roster), 2);
    assert!(roster_valid(&Vec::new()));
    assert_eq!(count_paid(&Vec::new()), 0);
    assert!(!roster_valid(&vec![member("A", 0, paid), member("A", 1, paid)]));
    assert!(!roster_valid(&vec![member("A", 0, paid), member("B", 2, paid)]));
    assert!(!roster_valid(&vec![member("A", 1, paid)]));
}
