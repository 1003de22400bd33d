use rosca::savings::contract::SavingsContract;
use rosca::savings::types::{Address, Frequency, GroupStatus, MemberStatus};

fn address(tag: &str) -> Address {
    format!("G{}", tag)
}

fn create_test_group() -> (Address, SavingsContract) {
    (address("ADMIN"), SavingsContract::new())
}

#[test]
fn test_create_group_success() {
    let now: u64 = 0;
    let (admin, mut client) = create_test_group();
    let group_id = String::from("test-group-1");
    let name = String::from("Test Savings");

    let result = client.create_group(
        admin.clone(),
        group_id.clone(),
        name.clone(),
        100_000_000,
        5,
        Frequency::Monthly,
        now + 86400,
        true,
        now,
        true,
    );

    assert!(result.is_ok());

    let group = client.get_group(&group_id).unwrap();
    assert_eq!(group.name, name);
    assert_eq!(group.total_members, 5);
    assert_eq!(group.status, GroupStatus::Open);
}

#[test]
fn test_create_group_low_contribution() {
    let now: u64 = 0;
    let (admin, mut client) = create_test_group();
    let group_id = String::from("test-group-2");
    let name = String::from("Test Savings");

    let result = client.create_group(
        admin,
        group_id,
        name,
        5_000_000,
        5,
        Frequency::Monthly,
        now + 86400,
        true,
        now,
        true,
    );

    assert!(result.is_err());
}

#[test]
fn test_join_group() {
    let now: u64 = 0;
    let (admin, mut client) = create_test_group();
    let group_id = String::from("test-group-3");
    let name = String::from("Test Savings");

    client
        .create_group(
            admin.clone(),
            group_id.clone(),
            name,
            100_000_000,
            3,
            Frequency::Monthly,
            now + 86400,
            true,
            now,
            true,
        )
        .unwrap();

    let members = client.get_members(&group_id);
    assert_eq!(members.len(), 1);

    let member2 = address("MEMBER2");
    let result = client.join_group(member2, &group_id, now, true);
    assert!(result.is_ok());

    let members = client.get_members(&group_id);
    assert_eq!(members.len(), 2);

    let member3 = address("MEMBER3");
    client.join_group(member3, &group_id, now, true).unwrap();

    let group = client.get_group(&group_id).unwrap();
    assert_eq!(group.status, GroupStatus::Active);
    assert_eq!(group.current_round, 1);
}

#[test]
fn test_cannot_join_full_group() {
    let now: u64 = 0;
    let (admin, mut client) = create_test_group();
    let group_id = String::from("test-group-4");
    let name = String::from("Test Savings");

    client
        .create_group(
            admin,
            group_id.clone(),
            name,
            100_000_000,
            3,
            Frequency::Monthly,
            now + 86400,
            true,
            now,
            true,
        )
        .unwrap();

    let member2 = address("MEMBER2");
    let member3 = address("MEMBER3");
    let member4 = address("MEMBER4");

    client.join_group(member2, &group_id, now, true).unwrap();
    client.join_group(member3, &group_id, now, true).unwrap();

    let result = client.join_group(member4, &group_id, now, true);
    assert!(result.is_err());
}

#[test]
fn test_cannot_join_twice() {
    let now: u64 = 0;
    let (admin, mut client) = create_test_group();
    let group_id = String::from("test-group-5");
    let name = String::from("Test Savings");

    client
        .create_group(
            admin,
            group_id.clone(),
            name,
            100_000_000,
            5,
            Frequency::Monthly,
            now + 86400,
            true,
            now,
            true,
        )
        .unwrap();

    let member = address("MEMBER");
    client.join_group(member.clone(), &group_id, now, true).unwrap();

    let result = client.join_group(member, &group_id, now, true);
    assert!(result.is_err());
}

#[test]
fn test_contribution_flow() {
    let mut now: u64 = 0;
    let (admin, mut client) = create_test_group();
    let group_id = String::from("test-group-6");
    let name = String::from("Test Savings");

    client
        .create_group(
            admin.clone(),
            group_id.clone(),
            name,
            100_000_000,
            3,
            Frequency::Weekly,
            now + 100,
            true,
            now,
            true,
        )
        .unwrap();

    let member2 = address("MEMBER2");
    let member3 = address("MEMBER3");

    client.join_group(member2.clone(), &group_id, now, true).unwrap();
    client.join_group(member3.clone(), &group_id, now, true).unwrap();

    let group = client.get_group(&group_id).unwrap();
    assert_eq!(group.status, GroupStatus::Active);

    now = group.start_timestamp + 1;

    client.contribute(admin.clone(), &group_id, now, true).unwrap();

    let member_data = client.get_member(&admin, &group_id).unwrap();
    assert_eq!(member_data.status, MemberStatus::PaidCurrentRound);
    assert_eq!(member_data.total_contributed, 100_000_000);

    client.contribute(member2, &group_id, now, true).unwrap();

    client.contribute(member3, &group_id, now, true).unwrap();

    let admin_data = client.get_member(&admin, &group_id).unwrap();
    assert!(admin_data.has_received_payout);
}

#[test]
fn test_cannot_contribute_twice() {
    let mut now: u64 = 0;
    let (admin, mut client) = create_test_group();
    let group_id = String::from("test-group-7");
    let name = String::from("Test Savings");

    client
        .create_group(
            admin.clone(),
            group_id.clone(),
            name,
            100_000_000,
            3,
            Frequency::Weekly,
            now + 100,
            true,
            now,
            true,
        )
        .unwrap();

    let member2 = address("MEMBER2");
    let member3 = address("MEMBER3");

    client.join_group(member2, &group_id, now, true).unwrap();
    client.join_group(member3, &group_id, now, true).unwrap();

    let group = client.get_group(&group_id).unwrap();
    now = group.start_timestamp + 1;

    client.contribute(admin.clone(), &group_id, now, true).unwrap();

    let result = client.contribute(admin, &group_id, now, true);
    assert!(result.is_err());
}

#[test]
fn test_member_count_validation() {
    let now: u64 = 0;
    let (admin, mut client) = create_test_group();
    let group_id = String::from("test-group-8");
    let name = String::from("Test Savings");

    let result = client.create_group(
        admin.clone(),
        group_id.clone(),
        name.clone(),
        100_000_000,
        2,
        Frequency::Monthly,
        now + 86400,
        true,
        now,
        true,
    );
    assert!(result.is_err());

    let result = client.create_group(
        admin,
        group_id,
        name,
        100_000_000,
        25,
        Frequency::Monthly,
        now + 86400,
        true,
        now,
        true,
    );
    assert!(result.is_err());
}

#[test]
fn test_full_cycle() {
    let mut now: u64 = 0;
    let (admin, mut client) = create_test_group();
    let group_id = String::from("test-group-9");
    let name = String::from("Full Cycle Test");

    let member_count = 3u32;
    let contribution = 100_000_000i128;

    client
        .create_group(
            admin.clone(),
            group_id.clone(),
            name,
            contribution,
            member_count,
            Frequency::Weekly,
            now + 100,
            true,
            now,
            true,
        )
        .unwrap();

    let member2 = address("MEMBER2");
    let member3 = address("MEMBER3");

    client.join_group(member2.clone(), &group_id, now, true).unwrap();
    client.join_group(member3.clone(), &group_id, now, true).unwrap();

    let group = client.get_group(&group_id).unwrap();
    now = group.start_timestamp + 1;

    client.contribute(admin.clone(), &group_id, now, true).unwrap();
    client.contribute(member2.clone(), &group_id, now, true).unwrap();
    client.contribute(member3.clone(), &group_id, now, true).unwrap();

    let payouts = client.get_round_payouts(&group_id, 1);
    assert_eq!(payouts.len(), 1);

    let group = client.get_group(&group_id).unwrap();
    assert_eq!(group.current_round, 2);

    now += 604800;

    client.contribute(admin.clone(), &group_id, now, true).unwrap();
    client.contribute(member2.clone(), &group_id, now, true).unwrap();
    client.contribute(member3.clone(), &group_id, now, true).unwrap();

    now += 604800;

    client.contribute(admin.clone(), &group_id, now, true).unwrap();
    client.contribute(member2.clone(), &group_id, now, true).unwrap();
    client.contribute(member3.clone(), &group_id, now, true).unwrap();

    let group = client.get_group(&group_id).unwrap();
    assert_eq!(group.status, GroupStatus::Completed);

    assert!(client.get_member(&admin, &group_id).unwrap().has_received_payout);
    assert!(client.get_member(&member2, &group_id).unwrap().has_received_payout);
    assert!(client.get_member(&member3, &group_id).unwrap().has_received_payout);
}

#[test]
fn test_payout_order() {
    let mut now: u64 = 0;
    let (admin, mut client) = create_test_group();
    let group_id = String::from("test-group-10");
    let name = String::from("Payout Order Test");

    client
        .create_group(
            admin.clone(),
            group_id.clone(),
            name,
            100_000_000,
            3,
            Frequency::Weekly,
            now + 100,
            true,
            now,
            true,
        )
        .unwrap();

    let member2 = address("MEMBER2");
    let member3 = address("MEMBER3");

    client.join_group(member2.clone(), &group_id, now, true).unwrap();
    client.join_group(member3.clone(), &group_id, now, true).unwrap();

    assert_eq!(client.get_member(&admin, &group_id).unwrap().join_order, 0);
    assert_eq!(client.get_member(&member2, &group_id).unwrap().join_order, 1);
    assert_eq!(client.get_member(&member3, &group_id).unwrap().join_order, 2);

    let group = client.get_group(&group_id).unwrap();
    now = group.start_timestamp + 1;

    client.contribute(admin.clone(), &group_id, now, true).unwrap();
    client.contribute(member2.clone(), &group_id, now, true).unwrap();
    client.contribute(member3.clone(), &group_id, now, true).unwrap();

    let payouts = client.get_round_payouts(&group_id, 1);
    assert_eq!(payouts.get(0).unwrap().recipient, admin);

    now += 604800;

    client.contribute(admin.clone(), &group_id, now, true).unwrap();
    client.contribute(member2.clone(), &group_id, now, true).unwrap();
    client.contribute(member3.clone(), &group_id, now, true).unwrap();

    let payouts = client.get_round_payouts(&group_id, 2);
    assert_eq!(payouts.get(0).unwrap().recipient, member2);
}

#[test]
fn test_contribute_to_nonexistent_group() {
    let mut client = SavingsContract::new();
    let member = address("MEMBER");

    let result = client.contribute(member, &String::from("no-such-group"), 0, true);
    assert!(result.is_err());
}

#[test]
fn test_join_nonexistent_group() {
    let mut client = SavingsContract::new();
    let member = address("MEMBER");

    let result = client.join_group(member, &String::from("no-such-group"), 0, true);
    assert!(result.is_err());
}

#[test]
fn test_get_member_not_exists() {
    let now: u64 = 0;
    let (admin, mut client) = create_test_group();
    let group_id = String::from("test-group-11");
    let name = String::from("Test Savings");

    client
        .create_group(
            admin,
            group_id.clone(),
            name,
            100_000_000,
            5,
            Frequency::Monthly,
            now + 86400,
            true,
            now,
            true,
        )
        .unwrap();

    let non_member = address("STRANGER");
    let result = client.get_member(&non_member, &group_id);
    assert!(result.is_err());
}

#[test]
fn test_contribute_before_group_active() {
    let now: u64 = 0;
    let (admin, mut client) = create_test_group();
    let group_id = String::from("test-group-12");
    let name = String::from("Test Savings");

    client
        .create_group(
            admin.clone(),
            group_id.clone(),
            name,
            100_000_000,
            5,
            Frequency::Monthly,
            now + 86400,
            true,
            now,
            true,
        )
        .unwrap();

    let result = client.contribute(admin, &group_id, now, true);
    assert!(result.is_err());
}

#[test]
fn test_contribution_non_member() {
    let now: u64 = 0;
    let (admin, mut client) = create_test_group();
    let group_id = String::from("test-group-13");
    let name = String::from("Test Savings");

    client
        .create_group(
            admin,
            group_id.clone(),
            name,
            100_000_000,
            3,
            Frequency::Weekly,
            now + 100,
            true,
            now,
            true,
        )
        .unwrap();

    let member2 = address("MEMBER2");
    client.join_group(member2, &group_id, now, true).unwrap();

    let non_member = address("STRANGER");

    let result = client.contribute(non_member, &group_id, now, true);
    assert!(result.is_err());
}

#[test]
fn test_payout_calculation() {
    let mut now: u64 = 0;
    let (admin, mut client) = create_test_group();
    let group_id = String::from("test-group-14");
    let name = String::from("Payout Calculation Test");

    let contribution = 100_000_000i128;
    let member_count = 3;

    client
        .create_group(
            admin.clone(),
            group_id.clone(),
            name,
            contribution,
            member_count,
            Frequency::Weekly,
            now + 100,
            true,
            now,
            true,
        )
        .unwrap();

    let member2 = address("MEMBER2");
    let member3 = address("MEMBER3");

    client.join_group(member2.clone(), &group_id, now, true).unwrap();
    client.join_group(member3.clone(), &group_id, now, true).unwrap();

    let group = client.get_group(&group_id).unwrap();
    now = group.start_timestamp + 1;

    client.contribute(admin, &group_id, now, true).unwrap();
    client.contribute(member2, &group_id, now, true).unwrap();
    client.contribute(member3, &group_id, now, true).unwrap();

    let payouts = client.get_round_payouts(&group_id, 1);
    assert_eq!(payouts.len(), 1);

    let payout = payouts.get(0).unwrap();
    let total_pool = contribution * (member_count as i128);
    let platform_fee = (total_pool * 200) / 10000;
    let expected_payout = total_pool - platform_fee;

    assert_eq!(payout.amount, expected_payout);
}

#[test]
fn test_start_date_validation() {
    let now: u64 = 1000;
    let (admin, mut client) = create_test_group();
    let group_id = String::from("test-group-15");
    let name = String::from("Test Savings");

    let result = client.create_group(
        admin,
        group_id,
        name,
        100_000_000,
        5,
        Frequency::Monthly,
        now - 100,
        true,
        now,
        true,
    );

    assert!(result.is_err());
}

#[test]
fn test_get_round_contributions() {
    let mut now: u64 = 0;
    let (admin, mut client) = create_test_group();
    let group_id = String::from("test-group-16");
    let name = String::from("Test Contributions");

    client
        .create_group(
            admin.clone(),
            group_id.clone(),
            name,
            100_000_000,
            3,
            Frequency::Weekly,
            now + 100,
            true,
            now,
            true,
        )
        .unwrap();

    let member2 = address("MEMBER2");
    let member3 = address("MEMBER3");

    client.join_group(member2.clone(), &group_id, now, true).unwrap();
    client.join_group(member3.clone(), &group_id, now, true).unwrap();

    let group = client.get_group(&group_id).unwrap();
    now = group.start_timestamp + 1;

    client.contribute(admin, &group_id, now, true).unwrap();
    client.contribute(member2, &group_id, now, true).unwrap();

    let contributions = client.get_round_contributions(&group_id, 1);
    assert_eq!(contributions.len(), 2);

    client.contribute(member3, &group_id, now, true).unwrap();

    let contributions = client.get_round_contributions(&group_id, 1);
    assert_eq!(contributions.len(), 3);

    assert_eq!(contributions.get(0).unwrap().amount, 100_000_000);
    assert_eq!(contributions.get(0).unwrap().round, 1);
}

#[test]
fn test_cannot_join_after_active() {
    let now: u64 = 0;
    let (admin, mut client) = create_test_group();
    let group_id = String::from("test-group-17");
    let name = String::from("Test Savings");

    client
        .create_group(
            admin,
            group_id.clone(),
            name,
            100_000_000,
            3,
            Frequency::Monthly,
            now + 86400,
            true,
            now,
            true,
        )
        .unwrap();

    let member2 = address("MEMBER2");
    let member3 = address("MEMBER3");
    let member4 = address("MEMBER4");

    client.join_group(member2, &group_id, now, true).unwrap();
    client.join_group(member3, &group_id, now, true).unwrap();

    let group = client.get_group(&group_id).unwrap();
    assert_eq!(group.status, GroupStatus::Active);

    let result = client.join_group(member4, &group_id, now, true);
    assert!(result.is_err());
}

#[test]
fn test_member_status_transitions() {
    let mut now: u64 = 0;
    let (admin, mut client) = create_test_group();
    let group_id = String::from("test-group-18");
    let name = String::from("Status Test");

    client
        .create_group(
            admin.clone(),
            group_id.clone(),
            name,
            100_000_000,
            3,
            Frequency::Weekly,
            now + 100,
            true,
            now,
            true,
        )
        .unwrap();

    let member2 = address("MEMBER2");
    let member3 = address("MEMBER3");

    client.join_group(member2.clone(), &group_id, now, true).unwrap();
    client.join_group(member3.clone(), &group_id, now, true).unwrap();

    let admin_data = client.get_member(&admin, &group_id).unwrap();
    assert_eq!(admin_data.status, MemberStatus::Active);

    let group = client.get_group(&group_id).unwrap();
    now = group.start_timestamp + 1;

    client.contribute(admin.clone(), &group_id, now, true).unwrap();
    let admin_data = client.get_member(&admin, &group_id).unwrap();
    assert_eq!(admin_data.status, MemberStatus::PaidCurrentRound);

    client.contribute(member2, &group_id, now, true).unwrap();
    client.contribute(member3, &group_id, now, true).unwrap();

    let admin_data = client.get_member(&admin, &group_id).unwrap();
    assert_eq!(admin_data.status, MemberStatus::ReceivedPayout);
    assert_eq!(admin_data.payout_round, 1);
}

#[test]
fn test_empty_contributions_and_payouts() {
    let now: u64 = 0;
    let (admin, mut client) = create_test_group();
    let group_id = String::from("test-group-19");
    let name = String::from("Test Savings");

    client
        .create_group(
            admin,
            group_id.clone(),
            name,
            100_000_000,
            3,
            Frequency::Monthly,
            now + 86400,
            true,
            now,
            true,
        )
        .unwrap();

    let contributions = client.get_round_contributions(&group_id, 1);
    assert_eq!(contributions.len(), 0);

    let payouts = client.get_round_payouts(&group_id, 1);
    assert_eq!(payouts.len(), 0);
}
