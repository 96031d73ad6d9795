use vstd::prelude::*;

verus! {

/// Most history entries a participant record holds.
pub const MAX_HISTORY: usize = 100;

/// A 32-byte account address.
#[derive(Debug, Clone, Copy, Default)]
pub struct Address {
    pub bytes: [u8; 32],
}

impl View for Address {
    type V = Seq<u8>;

    open spec fn view(&self) -> Seq<u8> {
        self.bytes@
    }
}

impl PartialEq for Address {
    fn eq(&self, o: &Address) -> (r: bool) {
        let mut i: usize = 0;
        while i < 32
            invariant
                0 <= i <= 32,
                forall|j: int| 0 <= j < i ==> self.bytes@[j] == o.bytes@[j],
            decreases 32 - i,
        {
            if self.bytes[i] != o.bytes[i] {
                return false;
            }
            i = i + 1;
        }
        assert(self.bytes@ =~= o.bytes@);
        true
    }
}

impl vstd::std_specs::cmp::PartialEqSpecImpl for Address {
    open spec fn obeys_eq_spec() -> bool {
        true
    }

    open spec fn eq_spec(&self, o: &Address) -> bool {
        self@ == o@
    }
}

/// One entry of a participant's level history: from `day` on, the
/// participant sat at `level` under campaign `campaign_id`.
#[derive(Debug, Clone, Copy, Default, PartialEq, Eq, Structural)]
pub struct UserCredit {
    pub campaign_id: u16,
    pub level: u8,
    pub day: u32,
}

/// A participant record: current campaign, credit balance, claim watermark
/// and the append-only history of level transitions.
#[derive(Debug, Default)]
pub struct UserAccount {
    pub campaign_id: u16,
    pub credit: u32,
    pub reward_since: u32,
    pub history: Vec<UserCredit>,
}

/// The logical value of a participant record.
pub struct UserAccountView {
    pub campaign_id: u16,
    pub credit: u32,
    pub reward_since: u32,
    pub history: Seq<UserCredit>,
}

impl View for UserAccount {
    type V = UserAccountView;

    open spec fn view(&self) -> UserAccountView {
        UserAccountView {
            campaign_id: self.campaign_id,
            credit: self.credit,
            reward_since: self.reward_since,
            history: self.history@,
        }
    }
}

impl UserAccountView {
    /// A record whose history fits the fixed maximum length.
    pub open spec fn valid(self) -> bool {
        self.history.len() <= MAX_HISTORY
    }
}

/// The daily reward earned at one level of one campaign.
#[derive(Debug, Clone, Copy, Default, PartialEq, Eq, Structural)]
pub struct CreditSetting {
    pub campaign_id: u16,
    pub level: u8,
    pub daily_reward: u64,
}

/// The global reward-rate table, keyed by campaign and level.
#[derive(Debug, Clone, Default)]
pub struct CreditSettings {
    pub settings: Vec<CreditSetting>,
}

impl View for CreditSettings {
    type V = Seq<CreditSetting>;

    open spec fn view(&self) -> Seq<CreditSetting> {
        self.settings@
    }
}

/// The token reference: the address of the mint that rewards are paid in.
#[derive(Debug, Clone, Copy, Default, PartialEq)]
pub struct TokenAccount {
    pub token: Address,
}

/// A list of privileged identities.
#[derive(Debug, Clone, Default)]
pub struct PrivelegeUser {
    pub users: Vec<Address>,
}

} // verus!
