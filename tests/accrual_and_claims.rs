use credit_ledger::accrual::{
    calculate_current_earnings, checked_earnings, lookup_rate, settle_account,
};
use credit_ledger::address::{
    verify_mint_authority_address, verify_settings_address, verify_token_address,
    verify_user_address,
};
use credit_ledger::codec::{encode_credit_settings, encode_token_account};
use credit_ledger::error::LedgerError;
use credit_ledger::ledger::create_account;
use credit_ledger::state::{
    Address, CreditSetting, CreditSettings, TokenAccount, UserAccount, UserCredit,
};
use credit_ledger::workflow::{
    apply_credit_to_slot, day_index, prepare_claim, prepare_init, settle_slot, ClaimPlan,
    USER_SLOT_LEN,
};
use solana_program::pubkey::Pubkey;

fn addr(k: &Pubkey) -> Address {
    Address { bytes: k.to_bytes() }
}

fn settings(entries: &[(u16, u8, u64)]) -> CreditSettings {
    CreditSettings {
        settings: entries
            .iter()
            .map(|&(campaign_id, level, daily_reward)| CreditSetting { campaign_id, level, daily_reward })
            .collect(),
    }
}

fn account(reward_since: u32, history: &[(u16, u8, u32)]) -> UserAccount {
    UserAccount {
        campaign_id: 1,
        credit: 0,
        reward_since,
        history: history
            .iter()
            .map(|&(campaign_id, level, day)| UserCredit { campaign_id, level, day })
            .collect(),
    }
}

fn program() -> Pubkey {
    Pubkey::new_from_array([7u8; 32])
}

fn derived(seeds: &[&[u8]]) -> (Pubkey, u8) {
    Pubkey::find_program_address(seeds, &program())
}

#[test]
fn lookup_takes_first_match_and_defaults_to_zero() {
    let s = settings(&[(1, 1, 10), (1, 2, 20), (1, 1, 99)]);
    assert_eq!(lookup_rate(&s, 1, 1), 10);
    assert_eq!(lookup_rate(&s, 1, 2), 20);
    assert_eq!(lookup_rate(&s, 2, 1), 0);
    assert_eq!(lookup_rate(&settings(&[]), 1, 1), 0);
}

#[test]
fn one_segment_earns_rate_times_days() {
    let s = settings(&[(1, 1, 10)]);
    let a = create_account(1, 150, 0, 0);
    assert_eq!(calculate_current_earnings(&s, &a, 5), 50);
    assert_eq!(calculate_current_earnings(&s, &a, 0), 0);
}

#[test]
fn segments_use_the_level_in_force() {
    let s = settings(&[(1, 1, 10), (1, 2, 20)]);
    let a = account(0, &[(1, 1, 0), (1, 2, 10)]);
    assert_eq!(calculate_current_earnings(&s, &a, 15), 10 * 10 + 20 * 5);
    assert_eq!(calculate_current_earnings(&s, &a, 5), 50);
    assert_eq!(calculate_current_earnings(&s, &a, 10), 100);
}

#[test]
fn level_zero_and_missing_rates_earn_nothing() {
    let s = settings(&[(1, 1, 10)]);
    let a = account(0, &[(1, 0, 0), (2, 1, 4), (1, 1, 6)]);
    assert_eq!(calculate_current_earnings(&s, &a, 9), 30);
    assert_eq!(calculate_current_earnings(&s, &account(0, &[]), 100), 0);
}

#[test]
fn walk_starts_at_the_watermark() {
    let s = settings(&[(1, 1, 10)]);
    let a = account(3, &[]);
    assert_eq!(calculate_current_earnings(&s, &a, 9), 0);
    let b = account(20, &[(1, 1, 25)]);
    assert_eq!(calculate_current_earnings(&s, &b, 30), 50);
}

#[test]
fn accrual_adds_up_across_a_split_day() {
    let s = settings(&[(1, 1, 10), (1, 3, 7)]);
    let a = account(0, &[(1, 1, 0), (1, 3, 4)]);
    let e = |d: u32| calculate_current_earnings(&s, &a, d);
    let (d0, d1, d2) = (5u32, 9u32, 20u32);
    assert_eq!(e(d2) - e(d0), (e(d1) - e(d0)) + (e(d2) - e(d1)));
    assert_eq!(e(d1) - e(d0), 7 * (d1 - d0) as u64);
    assert_eq!(e(d2) - e(d1), 7 * (d2 - d1) as u64);
}

#[test]
fn overflowing_total_is_reported() {
    let s = settings(&[(1, 1, u64::MAX)]);
    let a = account(0, &[(1, 1, 0)]);
    assert_eq!(checked_earnings(&s, &a, 1), Some(u64::MAX));
    assert_eq!(checked_earnings(&s, &a, 2), None);
}

#[test]
fn day_index_counts_whole_days() {
    assert_eq!(day_index(0), 0);
    assert_eq!(day_index(86399), 0);
    assert_eq!(day_index(86400 * 5 + 3), 5);
    assert_eq!(day_index(1_700_000_000), 19675);
    assert_eq!(day_index(-5), 0);
}

#[test]
fn derived_addresses_are_accepted_and_others_refused() {
    let p = addr(&program());
    let (settings_key, settings_bump) = derived(&[b"credit_setting"]);
    assert_eq!(verify_settings_address(&p, &addr(&settings_key)), Ok(settings_bump));
    let (token_key, token_bump) = derived(&[b"dpr_token"]);
    assert_eq!(verify_token_address(&p, &addr(&token_key)), Ok(token_bump));
    let (mint_key, mint_bump) = derived(&[b"mint_authority"]);
    assert_eq!(verify_mint_authority_address(&p, &addr(&mint_key)), Ok(mint_bump));
    let user = Pubkey::new_from_array([3u8; 32]);
    let (user_key, user_bump) = derived(&[b"user", user.as_ref()]);
    assert_eq!(verify_user_address(&p, &addr(&user), &addr(&user_key)), Ok(user_bump));

    assert_eq!(verify_settings_address(&p, &addr(&token_key)), Err(LedgerError::AddressMismatch));
    assert_eq!(verify_token_address(&p, &addr(&settings_key)), Err(LedgerError::AddressMismatch));
    let other = Pubkey::new_from_array([4u8; 32]);
    assert_eq!(verify_user_address(&p, &addr(&other), &addr(&user_key)), Err(LedgerError::AddressMismatch));
}

struct Keys {
    settings: Address,
    token: Address,
    mint_authority: Address,
}

fn keys() -> Keys {
    Keys {
        settings: addr(&derived(&[b"credit_setting"]).0),
        token: addr(&derived(&[b"dpr_token"]).0),
        mint_authority: addr(&derived(&[b"mint_authority"]).0),
    }
}

#[test]
fn init_twice_is_refused_and_keeps_first_data() {
    let p = addr(&program());
    let k = keys();
    let s = settings(&[(1, 1, 10)]);
    let t = TokenAccount { token: Address { bytes: [9u8; 32] } };
    let plan = prepare_init(&p, &k.settings, &k.token, &k.mint_authority, true, true, &s, &t).unwrap();
    assert_eq!(plan.settings_data, encode_credit_settings(&s));
    assert_eq!(plan.token_data, vec![9u8; 32]);
    assert_eq!(plan.settings_bump, derived(&[b"credit_setting"]).1);
    assert_eq!(plan.mint_bump, derived(&[b"mint_authority"]).1);
    let settings_slot = plan.settings_data.clone();
    let token_slot = plan.token_data.clone();

    let other = settings(&[(5, 5, 500)]);
    let again = prepare_init(&p, &k.settings, &k.token, &k.mint_authority, false, false, &other, &t);
    assert_eq!(again.err(), Some(LedgerError::AlreadyInitialized));
    assert_eq!(settings_slot, encode_credit_settings(&s));
    assert_eq!(token_slot, vec![9u8; 32]);
    let one_filled = prepare_init(&p, &k.settings, &k.token, &k.mint_authority, true, false, &other, &t);
    assert_eq!(one_filled.err(), Some(LedgerError::AlreadyInitialized));
}

#[test]
fn init_refuses_foreign_addresses() {
    let p = addr(&program());
    let k = keys();
    let s = settings(&[]);
    let t = TokenAccount::default();
    let r = prepare_init(&p, &k.token, &k.token, &k.mint_authority, true, true, &s, &t);
    assert_eq!(r.err(), Some(LedgerError::AddressMismatch));
    let r = prepare_init(&p, &k.settings, &k.token, &k.settings, false, true, &s, &t);
    assert_eq!(r.err(), Some(LedgerError::AddressMismatch));
}

#[test]
fn credit_slot_is_created_then_updated() {
    let mut slot = vec![0u8; USER_SLOT_LEN];
    assert_eq!(apply_credit_to_slot(&mut slot, true, 1, 150, 0, 0), Ok(()));
    let a = UserAccount::unpack(&slot).unwrap();
    assert_eq!(a.credit, 150);
    assert_eq!(a.history, vec![UserCredit { campaign_id: 1, level: 1, day: 0 }]);

    assert_eq!(apply_credit_to_slot(&mut slot, false, 2, 100, 99, 4), Ok(()));
    let a = UserAccount::unpack(&slot).unwrap();
    assert_eq!(a.credit, 250);
    assert_eq!(a.campaign_id, 2);
    assert_eq!(a.reward_since, 0);
    assert_eq!(a.history.len(), 2);
    assert_eq!(a.history[1], UserCredit { campaign_id: 2, level: 2, day: 4 });
}

#[test]
fn credit_on_corrupt_slot_is_refused() {
    let mut slot = vec![0xffu8; USER_SLOT_LEN];
    assert_eq!(apply_credit_to_slot(&mut slot, false, 1, 10, 0, 0), Err(LedgerError::CorruptRecord));
    assert_eq!(slot, vec![0xffu8; USER_SLOT_LEN]);
}

struct ClaimSetup {
    program: Address,
    payer: Address,
    user_key: Address,
    mint: Address,
    settings_data: Vec<u8>,
    token_data: Vec<u8>,
    user_slot: Vec<u8>,
}

fn claim_setup() -> ClaimSetup {
    let payer = Pubkey::new_from_array([3u8; 32]);
    let mint = Address { bytes: [9u8; 32] };
    let mut user_slot = vec![0u8; USER_SLOT_LEN];
    assert_eq!(apply_credit_to_slot(&mut user_slot, true, 1, 150, 0, 0), Ok(()));
    ClaimSetup {
        program: addr(&program()),
        payer: addr(&payer),
        user_key: addr(&derived(&[b"user", payer.as_ref()]).0),
        mint,
        settings_data: encode_credit_settings(&settings(&[(1, 1, 10)])),
        token_data: encode_token_account(&TokenAccount { token: mint }),
        user_slot,
    }
}

fn claim(c: &ClaimSetup, k: &Keys, day: u32) -> Result<ClaimPlan, LedgerError> {
    prepare_claim(
        &c.program,
        &c.payer,
        &k.token,
        &c.user_key,
        &k.settings,
        &k.mint_authority,
        &c.mint,
        &c.settings_data,
        &c.token_data,
        &c.user_slot,
        day,
    )
}

#[test]
fn claim_after_five_days_mints_fifty() {
    let c = claim_setup();
    let k = keys();
    let plan = claim(&c, &k, 5).unwrap();
    assert_eq!(plan.amount, 50);
    assert_eq!(plan.mint_bump, derived(&[b"mint_authority"]).1);
}

#[test]
fn claim_alone_leaves_the_record() {
    let c = claim_setup();
    let k = keys();
    assert_eq!(claim(&c, &k, 5).unwrap().amount, 50);
    assert_eq!(claim(&c, &k, 5).unwrap().amount, 50);
}

#[test]
fn claim_refuses_wrong_addresses_and_mint() {
    let c = claim_setup();
    let k = keys();
    let swapped = Keys { settings: k.token, token: k.settings, mint_authority: k.mint_authority };
    assert_eq!(claim(&c, &swapped, 5).err(), Some(LedgerError::AddressMismatch));
    let mut other_user = claim_setup();
    other_user.payer = Address { bytes: [4u8; 32] };
    assert_eq!(claim(&other_user, &k, 5).err(), Some(LedgerError::AddressMismatch));
    let mut other_mint = claim_setup();
    other_mint.mint = Address { bytes: [8u8; 32] };
    assert_eq!(claim(&other_mint, &k, 5).err(), Some(LedgerError::AddressMismatch));
}

#[test]
fn claim_refuses_corrupt_records() {
    let k = keys();
    let mut c = claim_setup();
    c.user_slot = vec![0, 0, 0, 200];
    assert_eq!(claim(&c, &k, 5).err(), Some(LedgerError::CorruptRecord));
    let mut c = claim_setup();
    c.settings_data.push(1);
    assert_eq!(claim(&c, &k, 5).err(), Some(LedgerError::CorruptRecord));
    let mut c = claim_setup();
    c.token_data.pop();
    assert_eq!(claim(&c, &k, 5).err(), Some(LedgerError::CorruptRecord));
}

#[test]
fn claim_refuses_overflowing_amount() {
    let k = keys();
    let mut c = claim_setup();
    c.settings_data = encode_credit_settings(&settings(&[(1, 1, u64::MAX)]));
    assert_eq!(claim(&c, &k, 2).err(), Some(LedgerError::CapacityExceeded));
}

#[test]
fn credit_into_small_slot_is_refused_and_slot_kept() {
    let mut slot = vec![0u8; 20];
    assert_eq!(apply_credit_to_slot(&mut slot, true, 1, 150, 0, 0), Err(LedgerError::CapacityExceeded));
    assert_eq!(slot, vec![0u8; 20]);
    let mut slot = vec![0u8; 25];
    assert_eq!(apply_credit_to_slot(&mut slot, true, 1, 150, 0, 0), Ok(()));
    assert_eq!(apply_credit_to_slot(&mut slot, false, 1, 100, 0, 2), Err(LedgerError::CapacityExceeded));
    assert_eq!(UserAccount::unpack(&slot).unwrap().credit, 150);
}

#[test]
fn settling_moves_watermark_and_compacts_history() {
    let s = settings(&[(1, 1, 10), (1, 2, 20)]);
    let mut a = account(0, &[(1, 1, 0), (1, 2, 10), (1, 1, 30)]);
    settle_account(&mut a, 15);
    assert_eq!(a.reward_since, 15);
    assert_eq!(
        a.history,
        vec![UserCredit { campaign_id: 1, level: 2, day: 15 }, UserCredit { campaign_id: 1, level: 1, day: 30 }]
    );
    assert_eq!(calculate_current_earnings(&s, &a, 15), 0);
    assert_eq!(calculate_current_earnings(&s, &a, 35), 20 * 15 + 10 * 5);
    let whole = account(0, &[(1, 1, 0), (1, 2, 10), (1, 1, 30)]);
    assert_eq!(
        calculate_current_earnings(&s, &whole, 35),
        calculate_current_earnings(&s, &whole, 15) + calculate_current_earnings(&s, &a, 35)
    );
}

#[test]
fn settling_before_any_entry_changes_nothing() {
    let mut a = account(2, &[(1, 1, 10)]);
    settle_account(&mut a, 5);
    assert_eq!(a.reward_since, 2);
    assert_eq!(a.history, vec![UserCredit { campaign_id: 1, level: 1, day: 10 }]);
}

#[test]
fn claim_then_settle_pays_each_day_once() {
    let mut c = claim_setup();
    let k = keys();
    assert_eq!(claim(&c, &k, 5).unwrap().amount, 50);
    assert_eq!(settle_slot(&mut c.user_slot, 5), Ok(()));
    assert_eq!(claim(&c, &k, 5).unwrap().amount, 0);
    assert_eq!(claim(&c, &k, 8).unwrap().amount, 30);
    let a = UserAccount::unpack(&c.user_slot).unwrap();
    assert_eq!(a.reward_since, 5);
    assert_eq!(a.history, vec![UserCredit { campaign_id: 1, level: 1, day: 5 }]);
}

#[test]
fn settling_a_corrupt_slot_is_refused() {
    let mut slot = vec![0, 0, 0, 9, 1];
    assert_eq!(settle_slot(&mut slot, 5), Err(LedgerError::CorruptRecord));
    assert_eq!(slot, vec![0, 0, 0, 9, 1]);
}
