use vstd::prelude::*;

use crate::state::{CreditSetting, CreditSettings, UserAccount, UserAccountView, UserCredit};

verus! {

/// The daily reward of the first table entry at `(campaign, level)` from
/// position `i` on, or 0 when no later entry matches.
pub open spec fn rate_from(s: Seq<CreditSetting>, i: int, campaign: u16, level: u8) -> u64
    decreases s.len() - i,
{
    if i < 0 || i >= s.len() {
        0
    } else if s[i].campaign_id == campaign && s[i].level == level {
        s[i].daily_reward
    } else {
        rate_from(s, i + 1, campaign, level)
    }
}

/// The daily reward that the table gives `(campaign, level)`; 0 when absent.
pub open spec fn rate_of(s: Seq<CreditSetting>, campaign: u16, level: u8) -> u64 {
    rate_from(s, 0, campaign, level)
}

/// `to - from`, or 0 when `from` is later than `to`.
pub open spec fn days_between(from: u32, to: u32) -> int {
    if from <= to {
        to - from
    } else {
        0
    }
}

/// What one segment `[from, to]` at `(campaign, level)` earns: nothing at
/// level 0, the daily rate times the days otherwise.
pub open spec fn segment(s: Seq<CreditSetting>, campaign: u16, level: u8, from: u32, to: u32) -> int {
    if level != 0 {
        rate_of(s, campaign, level) * days_between(from, to)
    } else {
        0
    }
}

/// The earnings of the walk over the history from entry `i` on, as of day
/// `as_of`, where the segment in progress began on `prev_day` at
/// `(campaign, level)`. The walk stops at the first entry later than `as_of`
/// and closes with the open segment up to `as_of`.
pub open spec fn earnings_from(
    s: Seq<CreditSetting>,
    h: Seq<UserCredit>,
    i: int,
    as_of: u32,
    prev_day: u32,
    level: u8,
    campaign: u16,
) -> int
    decreases h.len() - i,
{
    if i < 0 || i >= h.len() || h[i].day > as_of {
        segment(s, campaign, level, prev_day, as_of)
    } else {
        segment(s, campaign, level, prev_day, h[i].day) + earnings_from(
            s,
            h,
            i + 1,
            as_of,
            h[i].day,
            h[i].level,
            h[i].campaign_id,
        )
    }
}

/// The segment in force when the walk from entry `i` on stops, as of `as_of`:
/// its first day, level and campaign.
pub open spec fn state_from(
    h: Seq<UserCredit>,
    i: int,
    as_of: u32,
    prev_day: u32,
    level: u8,
    campaign: u16,
) -> (u32, u8, u16)
    decreases h.len() - i,
{
    if i < 0 || i >= h.len() || h[i].day > as_of {
        (prev_day, level, campaign)
    } else {
        state_from(h, i + 1, as_of, h[i].day, h[i].level, h[i].campaign_id)
    }
}

/// Total unclaimed reward of a record as of day `as_of`: the walk starts at
/// the watermark `reward_since`, at level 0 of campaign 0.
pub open spec fn earnings(s: Seq<CreditSetting>, a: UserAccountView, as_of: u32) -> int {
    earnings_from(s, a.history, 0, as_of, a.reward_since, 0, 0)
}

/// The daily rate in force for a record on day `as_of`.
pub open spec fn rate_in_force(s: Seq<CreditSetting>, a: UserAccountView, as_of: u32) -> int {
    let st = state_from(a.history, 0, as_of, a.reward_since, 0, 0);
    if st.1 != 0 {
        rate_of(s, st.2, st.1) as int
    } else {
        0
    }
}

/// Whether no history entry falls on a day in `(from, to]`.
pub open spec fn no_transition_within(h: Seq<UserCredit>, from: u32, to: u32) -> bool {
    forall|k: int| 0 <= k < h.len() ==> !(from < #[trigger] h[k].day && h[k].day <= to)
}

proof fn lemma_earnings_from_nonneg(
    s: Seq<CreditSetting>,
    h: Seq<UserCredit>,
    i: int,
    as_of: u32,
    prev_day: u32,
    level: u8,
    campaign: u16,
)
    requires
        0 <= i,
    ensures
        earnings_from(s, h, i, as_of, prev_day, level, campaign) >= segment(
            s,
            campaign,
            level,
            prev_day,
            if i >= h.len() || h[i].day > as_of {
                as_of
            } else {
                h[i].day
            },
        ),
        segment(s, campaign, level, prev_day, as_of) >= 0,
        earnings_from(s, h, i, as_of, prev_day, level, campaign) >= 0,
    decreases h.len() - i,
{
    assert forall|c: u16, l: u8, a: u32, b: u32| segment(s, c, l, a, b) >= 0 by {
        if l != 0 {
            let r = rate_of(s, c, l) as int;
            let d = days_between(a, b);
            assert(r * d >= 0) by (nonlinear_arith)
                requires
                    r >= 0,
                    d >= 0,
            ;
        }
    }
    if i < h.len() && h[i].day <= as_of {
        lemma_earnings_from_nonneg(s, h, i + 1, as_of, h[i].day, h[i].level, h[i].campaign_id);
    }
}

proof fn lemma_walk_linear(
    s: Seq<CreditSetting>,
    h: Seq<UserCredit>,
    i: int,
    d0: u32,
    d1: u32,
    prev_day: u32,
    level: u8,
    campaign: u16,
)
    requires
        0 <= i,
        d0 <= d1,
        no_transition_within(h, d0, d1),
        level == 0 || prev_day <= d0,
    ensures
        state_from(h, i, d1, prev_day, level, campaign) == state_from(
            h,
            i,
            d0,
            prev_day,
            level,
            campaign,
        ),
        ({
            let st = state_from(h, i, d0, prev_day, level, campaign);
            let rate = if st.1 != 0 {
                rate_of(s, st.2, st.1) as int
            } else {
                0
            };
            earnings_from(s, h, i, d1, prev_day, level, campaign) == earnings_from(
                s,
                h,
                i,
                d0,
                prev_day,
                level,
                campaign,
            ) + rate * (d1 - d0)
        }),
    decreases h.len() - i,
{
    if i >= h.len() || h[i].day > d0 {
        if i < h.len() {
            assert(!(d0 < h[i].day && h[i].day <= d1));
        }
        if level != 0 {
            let r = rate_of(s, campaign, level) as int;
            assert(r * (d1 - prev_day) == r * (d0 - prev_day) + r * (d1 - d0)) by (nonlinear_arith);
        }
    } else {
        lemma_walk_linear(s, h, i + 1, d0, d1, h[i].day, h[i].level, h[i].campaign_id);
    }
}

/// Accrual is additive: across days `d0 <= d1 <= d2` with no level
/// transition recorded inside `(d0, d2]`, the earnings over `[d0, d2]` are
/// the earnings over `[d0, d1]` plus those over `[d1, d2]`, each of them the
/// one rate in force times its number of days.
pub proof fn lemma_accrual_additive(
    s: Seq<CreditSetting>,
    a: UserAccountView,
    d0: u32,
    d1: u32,
    d2: u32,
)
    requires
        d0 <= d1 <= d2,
        no_transition_within(a.history, d0, d2),
    ensures
        rate_in_force(s, a, d1) == rate_in_force(s, a, d0),
        rate_in_force(s, a, d2) == rate_in_force(s, a, d0),
        earnings(s, a, d1) - earnings(s, a, d0) == rate_in_force(s, a, d0) * (d1 - d0),
        earnings(s, a, d2) - earnings(s, a, d1) == rate_in_force(s, a, d0) * (d2 - d1),
        earnings(s, a, d2) - earnings(s, a, d0) == (earnings(s, a, d1) - earnings(s, a, d0)) + (
        earnings(s, a, d2) - earnings(s, a, d1)),
{
    let h = a.history;
    assert(no_transition_within(h, d0, d1));
    assert(no_transition_within(h, d1, d2));
    lemma_walk_linear(s, h, 0, d0, d1, a.reward_since, 0, 0);
    lemma_walk_linear(s, h, 0, d1, d2, a.reward_since, 0, 0);
}

/// The index of the first history entry from `i` on that is later than
/// `as_of`, or the history's length when there is none.
pub open spec fn stop_index(h: Seq<UserCredit>, i: int, as_of: u32) -> int
    decreases h.len() - i,
{
    if i < 0 || i >= h.len() || h[i].day > as_of {
        i
    } else {
        stop_index(h, i + 1, as_of)
    }
}

/// A record after its reward up to day `day` is paid out: the watermark
/// moves to `day`, and the entries that the walk to `day` went through are
/// replaced by one entry for the segment in force on `day`. A record whose
/// walk to `day` goes through no entry has earned nothing and stays as it is.
pub open spec fn settle(a: UserAccountView, day: u32) -> UserAccountView {
    let k = stop_index(a.history, 0, day);
    if k == 0 {
        a
    } else {
        let st = state_from(a.history, 0, day, a.reward_since, 0, 0);
        UserAccountView {
            reward_since: day,
            history: seq![UserCredit { campaign_id: st.2, level: st.1, day }]
                + a.history.subrange(k, a.history.len() as int),
            ..a
        }
    }
}

proof fn lemma_walk_prefix(
    s: Seq<CreditSetting>,
    h: Seq<UserCredit>,
    i: int,
    day: u32,
    later: u32,
    prev_day: u32,
    level: u8,
    campaign: u16,
)
    requires
        0 <= i <= h.len(),
        day <= later,
    ensures
        ({
            let k = stop_index(h, i, day);
            let st = state_from(h, i, day, prev_day, level, campaign);
            &&& i <= k <= h.len()
            &&& (k < h.len() ==> h[k].day > day)
            &&& (k > i ==> st.0 <= day)
            &&& (k == i ==> st == (prev_day, level, campaign))
            &&& earnings_from(s, h, i, later, prev_day, level, campaign) - earnings_from(
                s,
                h,
                i,
                day,
                prev_day,
                level,
                campaign,
            ) == earnings_from(s, h, k, later, st.0, st.1, st.2) - earnings_from(
                s,
                h,
                k,
                day,
                st.0,
                st.1,
                st.2,
            )
        }),
    decreases h.len() - i,
{
    if i < h.len() && h[i].day <= day {
        lemma_walk_prefix(s, h, i + 1, day, later, h[i].day, h[i].level, h[i].campaign_id);
    }
}

proof fn lemma_walk_split(
    s: Seq<CreditSetting>,
    h: Seq<UserCredit>,
    k: int,
    day: u32,
    later: u32,
    prev_day: u32,
    level: u8,
    campaign: u16,
)
    requires
        0 <= k <= h.len(),
        k < h.len() ==> h[k].day > day,
        prev_day <= day <= later,
    ensures
        earnings_from(s, h, k, later, prev_day, level, campaign) == segment(
            s,
            campaign,
            level,
            prev_day,
            day,
        ) + earnings_from(s, h, k, later, day, level, campaign),
        earnings_from(s, h, k, day, prev_day, level, campaign) == segment(
            s,
            campaign,
            level,
            prev_day,
            day,
        ),
{
    let r = rate_of(s, campaign, level) as int;
    let end = if k >= h.len() || h[k].day > later {
        later
    } else {
        h[k].day
    };
    if level != 0 {
        assert(r * (end - prev_day) == r * (day - prev_day) + r * (end - day)) by (nonlinear_arith);
    }
}

proof fn lemma_walk_shift(
    s: Seq<CreditSetting>,
    h: Seq<UserCredit>,
    h2: Seq<UserCredit>,
    k: int,
    j: int,
    later: u32,
    prev_day: u32,
    level: u8,
    campaign: u16,
)
    requires
        0 <= k <= h.len(),
        0 <= j <= h.len() - k,
        h2.len() == 1 + h.len() - k,
        h2.subrange(1, h2.len() as int) == h.subrange(k, h.len() as int),
    ensures
        earnings_from(s, h2, 1 + j, later, prev_day, level, campaign) == earnings_from(
            s,
            h,
            k + j,
            later,
            prev_day,
            level,
            campaign,
        ),
    decreases h.len() - k - j,
{
    if k + j < h.len() {
        assert(h2[1 + j] == h2.subrange(1, h2.len() as int)[j]);
        assert(h[k + j] == h.subrange(k, h.len() as int)[j]);
    }
    if k + j < h.len() && h[k + j].day <= later {
        lemma_walk_shift(
            s,
            h,
            h2,
            k,
            j + 1,
            later,
            h[k + j].day,
            h[k + j].level,
            h[k + j].campaign_id,
        );
    }
}

/// Settling a record pays each day once: what the record accrues up to a
/// later day is what was settled up to `day` plus what the settled record
/// accrues from then on. In particular a second settlement on the same day
/// finds nothing left, and settling never lengthens the history.
pub proof fn lemma_settle_pays_once(s: Seq<CreditSetting>, a: UserAccountView, day: u32, later: u32)
    requires
        day <= later,
    ensures
        earnings(s, a, later) == earnings(s, a, day) + earnings(s, settle(a, day), later),
        earnings(s, settle(a, day), day) == 0,
        settle(a, day).history.len() <= a.history.len(),
{
    let h = a.history;
    lemma_walk_prefix(s, h, 0, day, later, a.reward_since, 0, 0);
    lemma_walk_prefix(s, h, 0, day, day, a.reward_since, 0, 0);
    lemma_earnings_from_nonneg(s, h, 0, day, a.reward_since, 0, 0);
    let k = stop_index(h, 0, day);
    let st = state_from(h, 0, day, a.reward_since, 0, 0);
    if k == 0 {
        assert(earnings(s, a, day) == segment(s, 0, 0, a.reward_since, day));
    } else {
        let b = settle(a, day);
        let h2 = b.history;
        lemma_walk_split(s, h, k, day, later, st.0, st.1, st.2);
        lemma_walk_split(s, h, k, day, day, st.0, st.1, st.2);
        assert(h2.subrange(1, h2.len() as int) =~= h.subrange(k, h.len() as int));
        lemma_walk_shift(s, h, h2, k, 0, later, day, st.1, st.2);
        lemma_walk_shift(s, h, h2, k, 0, day, day, st.1, st.2);
        assert(earnings(s, b, later) == earnings_from(s, h2, 1, later, day, st.1, st.2));
        assert(earnings(s, b, day) == earnings_from(s, h2, 1, day, day, st.1, st.2));
        lemma_walk_split(s, h, k, day, day, day, st.1, st.2);
    }
}

/// The daily reward that the table gives `(campaign_id, level)`: the first
/// matching entry's, or 0 when none matches.
pub fn lookup_rate(settings: &CreditSettings, campaign_id: u16, level: u8) -> (r: u64)
    ensures
        r == rate_of(settings@, campaign_id, level),
{
    let n = settings.settings.len();
    let mut i: usize = 0;
    while i < n
        invariant
            n == settings@.len(),
            0 <= i <= n,
            rate_from(settings@, i as int, campaign_id, level) == rate_of(
                settings@,
                campaign_id,
                level,
            ),
        decreases n - i,
    {
        let entry = settings.settings[i];
        if entry.campaign_id == campaign_id && entry.level == level {
            return entry.daily_reward;
        }
        i = i + 1;
    }
    0
}

/// What one segment earns, in 128 bits, where it cannot overflow.
fn segment_exec(settings: &CreditSettings, campaign_id: u16, level: u8, from: u32, to: u32) -> (r:
    u128)
    ensures
        r == segment(settings@, campaign_id, level, from, to),
        r <= u64::MAX as int * u32::MAX as int,
{
    if level == 0 {
        return 0;
    }
    let rate = lookup_rate(settings, campaign_id, level);
    let days: u32 = to.saturating_sub(from);
    assert(rate as int * days as int <= u64::MAX as int * u32::MAX as int) by (nonlinear_arith)
        requires
            rate <= u64::MAX,
            days <= u32::MAX,
    ;
    rate as u128 * days as u128
}

/// Total unclaimed reward of `user_account` as of `current_day`, or `None`
/// when that total does not fit in a `u64`.
pub fn checked_earnings(settings: &CreditSettings, user_account: &UserAccount, current_day: u32) -> (r:
    Option<u64>)
    ensures
        r == (if earnings(settings@, user_account@, current_day) <= u64::MAX {
            Some(earnings(settings@, user_account@, current_day) as u64)
        } else {
            None::<u64>
        }),
{
    let ghost s = settings@;
    let ghost h = user_account.history@;
    let ghost goal = earnings(s, user_account@, current_day);
    let n = user_account.history.len();
    let mut total: u64 = 0;
    let mut previous_day = user_account.reward_since;
    let mut current_level: u8 = 0;
    let mut current_id: u16 = 0;
    let mut i: usize = 0;
    let mut done = false;
    while !done && i < n
        invariant
            n == h.len(),
            h == user_account.history@,
            s == settings@,
            goal == earnings(s, user_account@, current_day),
            0 <= i <= n,
            done ==> i < n && h[i as int].day > current_day,
            total + earnings_from(
                s,
                h,
                i as int,
                current_day,
                previous_day,
                current_level,
                current_id,
            ) == goal,
        decreases (n - i) * 2 + if done {
            0int
        } else {
            1int
        },
    {
        let info = user_account.history[i];
        if info.day > current_day {
            done = true;
        } else {
            let part = segment_exec(settings, current_id, current_level, previous_day, info.day);
            proof {
                lemma_earnings_from_nonneg(
                    s,
                    h,
                    i as int + 1,
                    current_day,
                    info.day,
                    info.level,
                    info.campaign_id,
                );
            }
            if total as u128 + part > u64::MAX as u128 {
                return None;
            }
            total = (total as u128 + part) as u64;
            previous_day = info.day;
            current_level = info.level;
            current_id = info.campaign_id;
            i = i + 1;
        }
    }
    let last = segment_exec(settings, current_id, current_level, previous_day, current_day);
    if total as u128 + last > u64::MAX as u128 {
        return None;
    }
    Some((total as u128 + last) as u64)
}

/// Total unclaimed reward of `user_account` as of `current_day`.
pub fn calculate_current_earnings(
    settings: &CreditSettings,
    user_account: &UserAccount,
    current_day: u32,
) -> (r: u64)
    requires
        earnings(settings@, user_account@, current_day) <= u64::MAX,
    ensures
        r == earnings(settings@, user_account@, current_day),
{
    proof {
        lemma_earnings_from_nonneg(
            settings@,
            user_account.history@,
            0,
            current_day,
            user_account.reward_since,
            0,
            0,
        );
    }
    match checked_earnings(settings, user_account, current_day) {
        Some(v) => v,
        None => 0,
    }
}

/// Pays out a record's reward up to day `day`: see `settle`.
pub fn settle_account(account: &mut UserAccount, day: u32)
    ensures
        final(account)@ == settle(old(account)@, day),
{
    let ghost h = account.history@;
    let n = account.history.len();
    let mut previous_day = account.reward_since;
    let mut current_level: u8 = 0;
    let mut current_id: u16 = 0;
    let mut i: usize = 0;
    let mut done = false;
    while !done && i < n
        invariant
            n == h.len(),
            h == account.history@,
            account@ == old(account)@,
            0 <= i <= n,
            done ==> i < n && h[i as int].day > day,
            stop_index(h, 0, day) == stop_index(h, i as int, day),
            state_from(h, 0, day, account.reward_since, 0, 0) == state_from(
                h,
                i as int,
                day,
                previous_day,
                current_level,
                current_id,
            ),
        decreases (n - i) * 2 + if done {
            0int
        } else {
            1int
        },
    {
        let info = account.history[i];
        if info.day > day {
            done = true;
        } else {
            previous_day = info.day;
            current_level = info.level;
            current_id = info.campaign_id;
            i = i + 1;
        }
    }
    if i == 0 {
        return;
    }
    let mut history: Vec<UserCredit> = Vec::new();
    history.push(UserCredit { campaign_id: current_id, level: current_level, day });
    let ghost first = history@;
    let mut j: usize = i;
    while j < n
        invariant
            n == h.len(),
            h == account.history@,
            0 < i <= j <= n,
            history@ == first + h.subrange(i as int, j as int),
        decreases n - j,
    {
        history.push(account.history[j]);
        assert(history@ =~= first + h.subrange(i as int, j + 1));
        j = j + 1;
    }
    account.history = history;
    account.reward_since = day;
    assert(final(account)@.history =~= settle(old(account)@, day).history);
}

} // verus!
