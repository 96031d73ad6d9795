use vstd::prelude::*;

use crate::accrual::{checked_earnings, earnings, settle, settle_account};
use crate::address::{
    address_check, mint_authority_seeds, settings_seeds, token_seeds, user_seeds,
    verify_mint_authority_address, verify_settings_address, verify_token_address,
    verify_user_address,
};
use crate::codec::{
    decode_credit_settings, decode_settings, decode_token_account, encode_account,
    encode_credit_settings, encode_settings, encode_token_account, read_record, write_record,
    PREFIX_LEN,
};
use crate::error::LedgerError;
use crate::ledger::{create_account, created_record, update_account, updated_record};
use crate::state::{Address, CreditSettings, TokenAccount, UserAccount, UserAccountView};

verus! {

/// Capacity of a participant slot: room for the length prefix and a record
/// with a full history.
pub const USER_SLOT_LEN: usize = 920;

/// Seconds in one day.
pub const SECS_PER_DAY: u64 = 86400;

/// What Init hands to the host: the bump seeds of the three derived
/// addresses and the exact bytes of the settings and token-reference slots.
pub struct InitPlan {
    pub settings_bump: u8,
    pub settings_data: Vec<u8>,
    pub token_bump: u8,
    pub token_data: Vec<u8>,
    pub mint_bump: u8,
}

/// What Claim hands to the minting service: the amount to mint and the bump
/// seed of the mint-authority capability that signs for it.
#[derive(Debug, Clone, Copy, PartialEq, Eq, Structural)]
pub struct ClaimPlan {
    pub amount: u64,
    pub mint_bump: u8,
}

/// The day index of a unix timestamp; instants before the epoch fall on day 0.
pub open spec fn day_of(unix_timestamp: i64) -> u32 {
    if unix_timestamp <= 0 {
        0
    } else {
        ((unix_timestamp as int / SECS_PER_DAY as int) % 0x1_0000_0000) as u32
    }
}

/// The day index of a unix timestamp: whole days since the epoch, as a
/// 32-bit count.
pub fn day_index(unix_timestamp: i64) -> (r: u32)
    ensures
        r == day_of(unix_timestamp),
{
    if unix_timestamp <= 0 {
        return 0;
    }
    let days: u64 = unix_timestamp as u64 / SECS_PER_DAY;
    (days % 0x1_0000_0000) as u32
}

/// The outcome of Init: the three addresses are checked first, then the two
/// slots must both be empty.
pub open spec fn init_outcome(
    program_id: Seq<u8>,
    settings_address: Seq<u8>,
    token_address: Seq<u8>,
    mint_authority: Seq<u8>,
    settings_slot_empty: bool,
    token_slot_empty: bool,
) -> Result<(u8, u8, u8), LedgerError> {
    match address_check(settings_seeds(), program_id, settings_address) {
        Err(e) => Err(e),
        Ok(sb) => match address_check(token_seeds(), program_id, token_address) {
            Err(e) => Err(e),
            Ok(tb) => match address_check(mint_authority_seeds(), program_id, mint_authority) {
                Err(e) => Err(e),
                Ok(mb) => if !settings_slot_empty || !token_slot_empty {
                    Err(LedgerError::AlreadyInitialized)
                } else {
                    Ok((sb, tb, mb))
                },
            },
        },
    }
}

/// Init: checks the settings, token-reference and mint-authority addresses,
/// refuses a second initialization, and produces the bytes of the two slots
/// to create.
pub fn prepare_init(
    program_id: &Address,
    settings_address: &Address,
    token_address: &Address,
    mint_authority: &Address,
    settings_slot_empty: bool,
    token_slot_empty: bool,
    settings: &CreditSettings,
    token: &TokenAccount,
) -> (r: Result<InitPlan, LedgerError>)
    requires
        settings@.len() <= u32::MAX,
    ensures
        match init_outcome(
            program_id@,
            settings_address@,
            token_address@,
            mint_authority@,
            settings_slot_empty,
            token_slot_empty,
        ) {
            Ok((sb, tb, mb)) => r matches Ok(plan) && plan.settings_bump == sb && plan.token_bump
                == tb && plan.mint_bump == mb && plan.settings_data@ == encode_settings(settings@)
                && plan.token_data@ == token.token@,
            Err(e) => r matches Err(x) && x == e,
        },
{
    let settings_bump = match verify_settings_address(program_id, settings_address) {
        Ok(b) => b,
        Err(e) => return Err(e),
    };
    let token_bump = match verify_token_address(program_id, token_address) {
        Ok(b) => b,
        Err(e) => return Err(e),
    };
    let mint_bump = match verify_mint_authority_address(program_id, mint_authority) {
        Ok(b) => b,
        Err(e) => return Err(e),
    };
    if !settings_slot_empty || !token_slot_empty {
        return Err(LedgerError::AlreadyInitialized);
    }
    let settings_data = encode_credit_settings(settings);
    let token_data = encode_token_account(token);
    Ok(InitPlan { settings_bump, settings_data, token_bump, token_data, mint_bump })
}

/// The record that a credit update leaves: a new one where the slot was
/// just created, else the stored one updated; a slot that does not decode
/// is corrupt.
pub open spec fn credit_outcome(
    slot: Seq<u8>,
    created: bool,
    campaign_id: u16,
    delta: i32,
    reward_since: u32,
    day: u32,
) -> Result<UserAccountView, LedgerError> {
    if created {
        Ok(created_record(campaign_id, delta, reward_since, day))
    } else {
        match read_record(slot) {
            None => Err(LedgerError::CorruptRecord),
            Some(a) => updated_record(a, campaign_id, delta, day),
        }
    }
}

/// AddCredit on a participant slot whose address was checked: creates the
/// record where the slot was just created, otherwise updates the stored one,
/// and writes the result back framed. On any failure the slot is unchanged.
pub fn apply_credit_to_slot(
    slot: &mut Vec<u8>,
    created: bool,
    campaign_id: u16,
    delta: i32,
    reward_since: u32,
    day: u32,
) -> (r: Result<(), LedgerError>)
    ensures
        match credit_outcome(old(slot)@, created, campaign_id, delta, reward_since, day) {
            Ok(a) => if a.valid() && PREFIX_LEN + encode_account(a).len() <= old(slot)@.len() {
                r is Ok && final(slot)@ == write_record(a, old(slot)@)
            } else {
                r == Err::<(), LedgerError>(LedgerError::CapacityExceeded) && final(slot)@ == old(
                    slot,
                )@
            },
            Err(e) => r == Err::<(), LedgerError>(e) && final(slot)@ == old(slot)@,
        },
{
    let account = if created {
        create_account(campaign_id, delta, reward_since, day)
    } else {
        let mut account = match UserAccount::unpack(slot.as_slice()) {
            Ok(a) => a,
            Err(e) => return Err(e),
        };
        match update_account(&mut account, campaign_id, delta, day) {
            Ok(()) => {},
            Err(e) => return Err(e),
        }
        account
    };
    UserAccount::pack(account, slot)
}

/// The outcome of Claim: the token-reference, participant, settings and
/// mint-authority addresses are checked in that order; then the stored
/// settings, token reference and participant record are read; the token
/// reference must name the supplied mint; the amount is the record's
/// accrual as of `day`, which must fit in a `u64`.
pub open spec fn claim_outcome(
    program_id: Seq<u8>,
    payer: Seq<u8>,
    token_address: Seq<u8>,
    user_address: Seq<u8>,
    settings_address: Seq<u8>,
    mint_authority: Seq<u8>,
    mint: Seq<u8>,
    settings_data: Seq<u8>,
    token_data: Seq<u8>,
    user_data: Seq<u8>,
    day: u32,
) -> Result<ClaimPlan, LedgerError> {
    if address_check(token_seeds(), program_id, token_address) is Err || address_check(
        user_seeds(payer),
        program_id,
        user_address,
    ) is Err || address_check(settings_seeds(), program_id, settings_address) is Err {
        Err(LedgerError::AddressMismatch)
    } else {
        match address_check(mint_authority_seeds(), program_id, mint_authority) {
            Err(e) => Err(e),
            Ok(mint_bump) => match decode_settings(settings_data) {
                None => Err(LedgerError::CorruptRecord),
                Some(s) => if token_data.len() != 32 {
                    Err(LedgerError::CorruptRecord)
                } else if token_data != mint {
                    Err(LedgerError::AddressMismatch)
                } else {
                    match read_record(user_data) {
                        None => Err(LedgerError::CorruptRecord),
                        Some(a) => if earnings(s, a, day) <= u64::MAX {
                            Ok(ClaimPlan { amount: earnings(s, a, day) as u64, mint_bump })
                        } else {
                            Err(LedgerError::CapacityExceeded)
                        },
                    }
                },
            },
        }
    }
}

/// Claim: checks the addresses, reads the three records, and computes the
/// reward accrued as of `day` that the minting service is asked to mint.
/// The participant slot is only read here: `settle_slot` then records the
/// payout, so that no period is paid twice.
pub fn prepare_claim(
    program_id: &Address,
    payer: &Address,
    token_address: &Address,
    user_address: &Address,
    settings_address: &Address,
    mint_authority: &Address,
    mint: &Address,
    settings_data: &[u8],
    token_data: &[u8],
    user_data: &[u8],
    day: u32,
) -> (r: Result<ClaimPlan, LedgerError>)
    ensures
        r == claim_outcome(
            program_id@,
            payer@,
            token_address@,
            user_address@,
            settings_address@,
            mint_authority@,
            mint@,
            settings_data@,
            token_data@,
            user_data@,
            day,
        ),
{
    let token_ok = verify_token_address(program_id, token_address).is_ok();
    let user_ok = verify_user_address(program_id, payer, user_address).is_ok();
    let settings_ok = verify_settings_address(program_id, settings_address).is_ok();
    if !token_ok || !user_ok || !settings_ok {
        return Err(LedgerError::AddressMismatch);
    }
    let mint_bump = match verify_mint_authority_address(program_id, mint_authority) {
        Ok(b) => b,
        Err(e) => return Err(e),
    };
    let settings = match decode_credit_settings(settings_data) {
        Ok(s) => s,
        Err(e) => return Err(e),
    };
    let token = match decode_token_account(token_data) {
        Ok(t) => t,
        Err(e) => return Err(e),
    };
    if token.token != *mint {
        return Err(LedgerError::AddressMismatch);
    }
    let account = match UserAccount::unpack(user_data) {
        Ok(a) => a,
        Err(e) => return Err(e),
    };
    match checked_earnings(&settings, &account, day) {
        Some(amount) => Ok(ClaimPlan { amount, mint_bump }),
        None => Err(LedgerError::CapacityExceeded),
    }
}

/// Records a claim's payout in a participant slot: the stored record is
/// settled up to `day` and written back framed. On any failure the slot is
/// unchanged.
pub fn settle_slot(slot: &mut Vec<u8>, day: u32) -> (r: Result<(), LedgerError>)
    ensures
        match read_record(old(slot)@) {
            None => r == Err::<(), LedgerError>(LedgerError::CorruptRecord) && final(slot)@ == old(
                slot,
            )@,
            Some(a) => if settle(a, day).valid() && PREFIX_LEN + encode_account(settle(a, day)).len()
                <= old(slot)@.len() {
                r is Ok && final(slot)@ == write_record(settle(a, day), old(slot)@)
            } else {
                r == Err::<(), LedgerError>(LedgerError::CapacityExceeded) && final(slot)@ == old(
                    slot,
                )@
            },
        },
{
    let mut account = match UserAccount::unpack(slot.as_slice()) {
        Ok(a) => a,
        Err(e) => return Err(e),
    };
    settle_account(&mut account, day);
    UserAccount::pack(account, slot)
}

} // verus!
