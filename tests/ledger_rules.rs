use credit_ledger::error::LedgerError;
use credit_ledger::ledger::{add_u32_i32, create_account, get_level, update_account};
use credit_ledger::state::{UserAccount, UserCredit, MAX_HISTORY};

fn entry(campaign_id: u16, level: u8, day: u32) -> UserCredit {
    UserCredit { campaign_id, level, day }
}

#[test]
fn clamp_adds_within_range() {
    assert_eq!(add_u32_i32(100, 50), 150);
    assert_eq!(add_u32_i32(100, -50), 50);
    assert_eq!(add_u32_i32(5, -5), 0);
    assert_eq!(add_u32_i32(u32::MAX, 0), u32::MAX);
    assert_eq!(add_u32_i32(u32::MAX - 10, 10), u32::MAX);
}

#[test]
fn clamp_resets_to_zero_outside_range() {
    assert_eq!(add_u32_i32(0, -50), 0);
    assert_eq!(add_u32_i32(10, -11), 0);
    assert_eq!(add_u32_i32(u32::MAX, 1), 0);
    assert_eq!(add_u32_i32(u32::MAX - 5, i32::MAX), 0);
    assert_eq!(add_u32_i32(0, i32::MIN), 0);
}

#[test]
fn level_steps_every_hundred_and_saturates() {
    assert_eq!(get_level(0), 0);
    assert_eq!(get_level(99), 0);
    assert_eq!(get_level(100), 1);
    assert_eq!(get_level(150), 1);
    assert_eq!(get_level(799), 7);
    assert_eq!(get_level(800), 8);
    assert_eq!(get_level(5000), 8);
    assert_eq!(get_level(u32::MAX), 8);
}

#[test]
fn level_is_monotone_on_samples() {
    let mut prev = 0u8;
    let mut c: u32 = 0;
    while c < 2000 {
        let l = get_level(c);
        assert!(l >= prev);
        prev = l;
        c += 7;
    }
}

#[test]
fn first_credit_creates_one_entry() {
    let a = create_account(1, 150, 0, 0);
    assert_eq!(a.campaign_id, 1);
    assert_eq!(a.credit, 150);
    assert_eq!(a.reward_since, 0);
    assert_eq!(a.history, vec![entry(1, 1, 0)]);
}

#[test]
fn negative_first_credit_is_zero_not_wrapped() {
    let a = create_account(3, -50, 7, 12);
    assert_eq!(a.credit, 0);
    assert_eq!(a.reward_since, 7);
    assert_eq!(a.history, vec![entry(3, 0, 12)]);
}

#[test]
fn negative_update_floors_at_zero() {
    let mut a = create_account(1, 0, 0, 0);
    assert_eq!(update_account(&mut a, 1, -50, 1), Ok(()));
    assert_eq!(a.credit, 0);
    assert_eq!(a.history.len(), 1);
}

#[test]
fn update_appends_only_on_level_change() {
    let mut a = create_account(1, 150, 0, 0);
    assert_eq!(update_account(&mut a, 2, 20, 3), Ok(()));
    assert_eq!(a.credit, 170);
    assert_eq!(a.campaign_id, 2);
    assert_eq!(a.history, vec![entry(1, 1, 0)]);

    assert_eq!(update_account(&mut a, 4, 100, 6), Ok(()));
    assert_eq!(a.credit, 270);
    assert_eq!(a.campaign_id, 4);
    assert_eq!(a.history, vec![entry(1, 1, 0), entry(4, 2, 6)]);

    assert_eq!(update_account(&mut a, 4, -270, 9), Ok(()));
    assert_eq!(a.credit, 0);
    assert_eq!(a.history, vec![entry(1, 1, 0), entry(4, 2, 6), entry(4, 0, 9)]);
}

#[test]
fn update_keeps_reward_since() {
    let mut a = create_account(1, 150, 42, 0);
    assert_eq!(update_account(&mut a, 1, 500, 2), Ok(()));
    assert_eq!(a.reward_since, 42);
    assert_eq!(a.history[1], entry(1, 6, 2));
}

#[test]
fn full_history_refuses_another_transition() {
    let mut history = Vec::new();
    for d in 0..MAX_HISTORY as u32 {
        history.push(entry(1, 1, d));
    }
    let mut a = UserAccount { campaign_id: 1, credit: 150, reward_since: 0, history };
    assert_eq!(update_account(&mut a, 2, 500, 200), Err(LedgerError::CapacityExceeded));
    assert_eq!(a.credit, 150);
    assert_eq!(a.campaign_id, 1);
    assert_eq!(a.history.len(), MAX_HISTORY);
    assert_eq!(update_account(&mut a, 2, 10, 200), Ok(()));
    assert_eq!(a.credit, 160);
    assert_eq!(a.history.len(), MAX_HISTORY);
}

#[test]
fn update_on_record_at_top_level_keeps_history() {
    let mut a = create_account(1, 900, 0, 0);
    assert_eq!(a.history, vec![entry(1, 8, 0)]);
    assert_eq!(update_account(&mut a, 2, 5000, 3), Ok(()));
    assert_eq!(a.credit, 5900);
    assert_eq!(a.history, vec![entry(1, 8, 0)]);
}
