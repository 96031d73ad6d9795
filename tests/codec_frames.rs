use credit_ledger::codec::{
    decode_credit_settings, decode_token_account, encode_credit_settings, encode_token_account,
    encode_user_account,
};
use credit_ledger::error::LedgerError;
use credit_ledger::state::{
    Address, CreditSetting, CreditSettings, TokenAccount, UserAccount, UserCredit, MAX_HISTORY,
};
use credit_ledger::workflow::USER_SLOT_LEN;

fn sample() -> UserAccount {
    UserAccount {
        campaign_id: 1,
        credit: 150,
        reward_since: 0,
        history: vec![UserCredit { campaign_id: 1, level: 1, day: 0 }],
    }
}

fn same(a: &UserAccount, b: &UserAccount) -> bool {
    a.campaign_id == b.campaign_id
        && a.credit == b.credit
        && a.reward_since == b.reward_since
        && a.history == b.history
}

#[test]
fn payload_bytes_are_exact() {
    let bytes = encode_user_account(&sample());
    assert_eq!(
        bytes,
        vec![1, 0, 150, 0, 0, 0, 0, 0, 0, 0, 1, 0, 0, 0, 1, 0, 1, 0, 0, 0, 0]
    );
}

#[test]
fn payload_matches_borsh_layout() {
    let a = UserAccount {
        campaign_id: 0x0102,
        credit: 0x0a0b0c0d,
        reward_since: 77,
        history: vec![
            UserCredit { campaign_id: 9, level: 3, day: 0x01020304 },
            UserCredit { campaign_id: 600, level: 8, day: 65536 },
        ],
    };
    let tuple = (
        a.campaign_id,
        a.credit,
        a.reward_since,
        a.history.iter().map(|e| (e.campaign_id, e.level, e.day)).collect::<Vec<_>>(),
    );
    assert_eq!(encode_user_account(&a), borsh::to_vec(&tuple).unwrap());
}

#[test]
fn pack_writes_prefix_payload_and_keeps_rest() {
    let mut slot = vec![0xee; 40];
    assert_eq!(UserAccount::pack(sample(), &mut slot), Ok(()));
    assert_eq!(&slot[0..4], &[0, 0, 0, 21]);
    assert_eq!(slot[4..25].to_vec(), encode_user_account(&sample()));
    assert!(slot[25..].iter().all(|b| *b == 0xee));
}

#[test]
fn record_round_trip() {
    let mut slot = vec![0u8; USER_SLOT_LEN];
    assert_eq!(UserAccount::pack(sample(), &mut slot), Ok(()));
    let back = UserAccount::unpack(&slot).unwrap();
    assert!(same(&back, &sample()));
}

#[test]
fn record_round_trip_full_history() {
    let mut history = Vec::new();
    for d in 0..MAX_HISTORY as u32 {
        history.push(UserCredit { campaign_id: d as u16, level: (d % 9) as u8, day: d * 3 });
    }
    let a = UserAccount { campaign_id: 7, credit: 12345, reward_since: 99, history };
    let mut slot = vec![0u8; USER_SLOT_LEN];
    assert_eq!(UserAccount::pack(a, &mut slot), Ok(()));
    let back = UserAccount::unpack(&slot).unwrap();
    assert_eq!(back.history.len(), MAX_HISTORY);
    assert_eq!(back.credit, 12345);
    assert_eq!(back.reward_since, 99);
    assert_eq!(back.history[57], UserCredit { campaign_id: 57, level: 3, day: 171 });
}

#[test]
fn round_trip_empty_history() {
    let a = UserAccount { campaign_id: 0, credit: 0, reward_since: 0, history: vec![] };
    let mut slot = vec![0u8; 18];
    assert_eq!(UserAccount::pack(a, &mut slot), Ok(()));
    let back = UserAccount::unpack(&slot).unwrap();
    assert!(back.history.is_empty());
}

#[test]
fn unpack_ignores_trailing_bytes() {
    let mut slot = vec![0x55u8; 100];
    assert_eq!(UserAccount::pack(sample(), &mut slot), Ok(()));
    assert!(same(&UserAccount::unpack(&slot).unwrap(), &sample()));
}

#[test]
fn unpack_refuses_short_or_truncated_data() {
    assert_eq!(UserAccount::unpack(&[0, 0, 0]).err(), Some(LedgerError::CorruptRecord));
    assert_eq!(UserAccount::unpack(&[0, 0, 0, 30, 1, 2]).err(), Some(LedgerError::CorruptRecord));
    let mut slot = vec![0u8; 40];
    assert_eq!(UserAccount::pack(sample(), &mut slot), Ok(()));
    slot[3] = 20;
    assert_eq!(UserAccount::unpack(&slot).err(), Some(LedgerError::CorruptRecord));
    slot[3] = 22;
    assert_eq!(UserAccount::unpack(&slot).err(), Some(LedgerError::CorruptRecord));
}

#[test]
fn unpack_refuses_count_mismatch() {
    let mut slot = vec![0u8; 40];
    assert_eq!(UserAccount::pack(sample(), &mut slot), Ok(()));
    slot[4 + 10] = 2;
    assert_eq!(UserAccount::unpack(&slot).err(), Some(LedgerError::CorruptRecord));
}

#[test]
fn pack_refuses_small_slot_and_leaves_it() {
    let mut slot = vec![9u8; 24];
    assert_eq!(UserAccount::pack(sample(), &mut slot), Err(LedgerError::CapacityExceeded));
    assert_eq!(slot, vec![9u8; 24]);
    let mut tiny = vec![1u8; 2];
    assert_eq!(UserAccount::pack(sample(), &mut tiny), Err(LedgerError::CapacityExceeded));
    assert_eq!(tiny, vec![1u8; 2]);
}

#[test]
fn pack_refuses_overlong_history() {
    let mut history = Vec::new();
    for d in 0..(MAX_HISTORY as u32 + 1) {
        history.push(UserCredit { campaign_id: 1, level: 1, day: d });
    }
    let a = UserAccount { campaign_id: 1, credit: 150, reward_since: 0, history };
    let mut slot = vec![0u8; 4096];
    assert_eq!(UserAccount::pack(a, &mut slot), Err(LedgerError::CapacityExceeded));
    assert!(slot.iter().all(|b| *b == 0));
}

#[test]
fn settings_bytes_match_borsh_and_round_trip() {
    let s = CreditSettings {
        settings: vec![
            CreditSetting { campaign_id: 1, level: 1, daily_reward: 10 },
            CreditSetting { campaign_id: 2, level: 8, daily_reward: 0x0102030405060708 },
        ],
    };
    let bytes = encode_credit_settings(&s);
    let tuples: Vec<(u16, u8, u64)> =
        s.settings.iter().map(|e| (e.campaign_id, e.level, e.daily_reward)).collect();
    assert_eq!(bytes, borsh::to_vec(&tuples).unwrap());
    assert_eq!(bytes.len(), 4 + 2 * 11);
    let back = decode_credit_settings(&bytes).unwrap();
    assert_eq!(back.settings, s.settings);
}

#[test]
fn settings_decode_refuses_bad_lengths() {
    assert_eq!(decode_credit_settings(&[1, 0]).err(), Some(LedgerError::CorruptRecord));
    let s = CreditSettings { settings: vec![CreditSetting { campaign_id: 1, level: 1, daily_reward: 10 }] };
    let mut bytes = encode_credit_settings(&s);
    bytes.push(0);
    assert_eq!(decode_credit_settings(&bytes).err(), Some(LedgerError::CorruptRecord));
    bytes.truncate(bytes.len() - 2);
    assert_eq!(decode_credit_settings(&bytes).err(), Some(LedgerError::CorruptRecord));
    let empty = decode_credit_settings(&[0, 0, 0, 0]).unwrap();
    assert!(empty.settings.is_empty());
}

#[test]
fn token_reference_is_its_32_bytes() {
    let mut bytes = [0u8; 32];
    for (i, b) in bytes.iter_mut().enumerate() {
        *b = i as u8 * 3;
    }
    let t = TokenAccount { token: Address { bytes } };
    let data = encode_token_account(&t);
    assert_eq!(data, bytes.to_vec());
    assert_eq!(decode_token_account(&data).unwrap().token.bytes, bytes);
    assert_eq!(decode_token_account(&data[..31]).err(), Some(LedgerError::CorruptRecord));
}
