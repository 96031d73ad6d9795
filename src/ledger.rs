use vstd::prelude::*;

use crate::error::LedgerError;
use crate::state::{UserAccount, UserAccountView, UserCredit, MAX_HISTORY};

verus! {

/// The highest reward level; every credit of at least 800 maps to it.
pub const MAX_LEVEL: u8 = 8;

/// The credit that separates one level from the next.
pub const CREDIT_PER_LEVEL: u32 = 100;

/// `c + d` when that sum lies in `[0, u32::MAX]`, and 0 otherwise.
pub open spec fn clamped_add(c: u32, d: i32) -> u32 {
    let s = c as int + d as int;
    if 0 <= s && s <= u32::MAX as int {
        s as u32
    } else {
        0
    }
}

/// The reward level of a credit balance: `min(credit / 100, 8)`.
pub open spec fn level_of(credit: u32) -> u8 {
    if credit / 100 > 8 {
        8
    } else {
        (credit / 100) as u8
    }
}

/// Adds a signed delta to a credit balance; a sum outside `[0, u32::MAX]`
/// resets the balance to 0 rather than wrapping.
pub fn add_u32_i32(u: u32, i: i32) -> (r: u32)
    ensures
        r == clamped_add(u, i),
        (u as int + i as int) < 0 || (u as int + i as int) > u32::MAX as int ==> r == 0,
        0 <= (u as int + i as int) <= u32::MAX as int ==> r as int == u as int + i as int,
{
    let wide: i64 = u as i64 + i as i64;
    if wide >= 0 && wide <= u32::MAX as i64 {
        wide as u32
    } else {
        0
    }
}

/// The reward level of a credit balance.
pub fn get_level(credit: u32) -> (r: u8)
    ensures
        r == level_of(credit),
        r <= MAX_LEVEL,
{
    let lv = credit / CREDIT_PER_LEVEL;
    if lv > MAX_LEVEL as u32 {
        MAX_LEVEL
    } else {
        lv as u8
    }
}

/// The level is monotonically non-decreasing in the credit, and every credit
/// of 800 or more sits at the top level 8.
pub proof fn lemma_level_monotone(a: u32, b: u32)
    ensures
        a <= b ==> level_of(a) <= level_of(b),
        level_of(a) <= MAX_LEVEL,
        a >= 800 ==> level_of(a) == MAX_LEVEL,
        a < 800 ==> level_of(a) as int == a / 100,
{
    if a <= b {
        assert(a / 100 <= b / 100) by (nonlinear_arith)
            requires
                a <= b,
        ;
    }
    if a >= 800 {
        assert(a / 100 >= 8) by (nonlinear_arith)
            requires
                a >= 800,
        ;
    }
}

/// The record that a first credit update creates: the clamped credit, the
/// caller's watermark, and one history entry for `day` at the new level.
pub open spec fn created_record(campaign_id: u16, delta: i32, reward_since: u32, day: u32) -> UserAccountView {
    let credit = clamped_add(0, delta);
    UserAccountView {
        campaign_id,
        credit,
        reward_since,
        history: seq![UserCredit { campaign_id, level: level_of(credit), day }],
    }
}

/// The outcome of a credit update on an existing record: the campaign is
/// overwritten, the credit adjusted with clamping, and a history entry for
/// `day` at the new level appended exactly when the level changes; an append
/// beyond the maximum history length fails.
pub open spec fn updated_record(old: UserAccountView, campaign_id: u16, delta: i32, day: u32) -> Result<
    UserAccountView,
    LedgerError,
> {
    let credit = clamped_add(old.credit, delta);
    let level = level_of(credit);
    if level != level_of(old.credit) {
        if old.history.len() >= MAX_HISTORY {
            Err(LedgerError::CapacityExceeded)
        } else {
            Ok(
                UserAccountView {
                    campaign_id,
                    credit,
                    history: old.history.push(UserCredit { campaign_id, level, day }),
                    ..old
                },
            )
        }
    } else {
        Ok(UserAccountView { campaign_id, credit, ..old })
    }
}

/// Creates a participant record on its first credit update.
pub fn create_account(campaign_id: u16, delta: i32, reward_since: u32, day: u32) -> (r: UserAccount)
    ensures
        r@ == created_record(campaign_id, delta, reward_since, day),
        r@.history.len() == 1,
        r@.valid(),
{
    let credit = add_u32_i32(0, delta);
    let level = get_level(credit);
    let history = vec![UserCredit { campaign_id, level, day }];
    let r = UserAccount { campaign_id, credit, reward_since, history };
    assert(r@.history =~= created_record(campaign_id, delta, reward_since, day).history);
    r
}

/// Applies a credit update to an existing participant record on `day`.
pub fn update_account(account: &mut UserAccount, campaign_id: u16, delta: i32, day: u32) -> (r: Result<
    (),
    LedgerError,
>)
    ensures
        match updated_record(old(account)@, campaign_id, delta, day) {
            Ok(v) => r is Ok && final(account)@ == v,
            Err(e) => r == Err::<(), LedgerError>(e) && final(account)@ == old(account)@,
        },
        r is Ok ==> (final(account)@.history.len() == old(account)@.history.len() + 1 <==> level_of(
            final(account)@.credit,
        ) != level_of(old(account)@.credit)),
        r is Ok && level_of(final(account)@.credit) == level_of(old(account)@.credit)
            ==> final(account)@.history == old(account)@.history,
{
    let old_level = get_level(account.credit);
    let credit = add_u32_i32(account.credit, delta);
    let new_level = get_level(credit);
    if old_level != new_level {
        if account.history.len() >= MAX_HISTORY {
            return Err(LedgerError::CapacityExceeded);
        }
        account.history.push(UserCredit { campaign_id, level: new_level, day });
    }
    account.credit = credit;
    account.campaign_id = campaign_id;
    Ok(())
}

} // verus!
