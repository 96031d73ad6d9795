use vstd::prelude::*;

use crate::codec::{
    address_at, decode_settings_at, encode_settings, le2, le4, read_le2, read_le4,
    settings_decode_to, PREFIX_LEN,
};
use crate::error::LedgerError;
use crate::state::{Address, CreditSetting, CreditSettings, TokenAccount};

verus! {

/// The operations the ledger accepts.
#[derive(Debug, Clone)]
pub enum CreditInstruction {
    /// Creates the settings table and the token reference.
    Init { settings: CreditSettings, token: TokenAccount },
    /// Adjusts participant `pk`'s credit by `credit` under `campaign`;
    /// `reward_since` is the watermark of a record created by it.
    Add { pk: Address, campaign: u16, credit: i32, reward_since: u32 },
    /// Overwrites the token reference.
    SetTokenAddress { address: Address },
    /// Computes and mints the caller's accrued reward.
    Claim,
}

/// Operation tag of Init.
pub const TAG_INIT: u8 = 0;

/// Operation tag of AddCredit.
pub const TAG_ADD: u8 = 1;

/// Operation tag of SetTokenAddress.
pub const TAG_SET_TOKEN: u8 = 2;

/// Operation tag of Claim.
pub const TAG_CLAIM: u8 = 3;

/// Bytes of an encoded AddCredit: tag, identity, campaign, delta, watermark.
pub const ADD_LEN: usize = 43;

/// Bytes of an encoded SetTokenAddress: tag and address.
pub const SET_TOKEN_LEN: usize = 33;

/// The two's-complement bits of `v`.
pub open spec fn i32_bits(v: i32) -> u32 {
    if v >= 0 {
        v as u32
    } else {
        (v + 0x1_0000_0000) as u32
    }
}

/// The encoded form of an operation: a one-byte tag, then its fields in
/// order, integers little-endian, the settings table as it is stored.
pub open spec fn encode_instruction(ix: CreditInstruction) -> Seq<u8> {
    match ix {
        CreditInstruction::Init { settings, token } => seq![TAG_INIT] + encode_settings(settings@)
            + token.token@,
        CreditInstruction::Add { pk, campaign, credit, reward_since } => seq![TAG_ADD] + pk@ + le2(
            campaign,
        ) + le4(i32_bits(credit)) + le4(reward_since),
        CreditInstruction::SetTokenAddress { address } => seq![TAG_SET_TOKEN] + address@,
        CreditInstruction::Claim => seq![TAG_CLAIM],
    }
}

/// Whether `data` is the encoded form of operation `ix`.
pub open spec fn instruction_decodes_to(data: Seq<u8>, ix: CreditInstruction) -> bool {
    &&& match ix {
        CreditInstruction::Init { settings, .. } => settings@.len() <= u32::MAX,
        _ => true,
    }
    &&& encode_instruction(ix) == data
}

/// Whether `data` starts with no known operation tag.
pub open spec fn unknown_tag(data: Seq<u8>) -> bool {
    data.len() == 0 || data[0] > TAG_CLAIM
}

impl CreditInstruction {
    /// Reads an operation from its encoded form, which must fill `data`
    /// exactly. A missing or unknown tag is `UnknownInstruction`; fields
    /// that do not decode are `CorruptRecord`.
    pub fn decode(data: &[u8]) -> (r: Result<CreditInstruction, LedgerError>)
        ensures
            match r {
                Ok(ix) => instruction_decodes_to(data@, ix),
                Err(e) => (forall|ix: CreditInstruction| !#[trigger] instruction_decodes_to(data@, ix))
                    && (e == LedgerError::UnknownInstruction <==> unknown_tag(data@)) && (e
                    == LedgerError::UnknownInstruction || e == LedgerError::CorruptRecord),
            },
    {
        let len = data.len();
        if len == 0 {
            return Err(LedgerError::UnknownInstruction);
        }
        let tag = data[0];
        if tag == TAG_CLAIM {
            if len != 1 {
                assert forall|ix: CreditInstruction| !#[trigger] instruction_decodes_to(data@, ix) by {
                    if instruction_decodes_to(data@, ix) {
                        assert(encode_instruction(ix)[0] == data@[0]);
                    }
                }
                return Err(LedgerError::CorruptRecord);
            }
            assert(encode_instruction(CreditInstruction::Claim) =~= data@);
            Ok(CreditInstruction::Claim)
        } else if tag == TAG_SET_TOKEN {
            if len != SET_TOKEN_LEN {
                assert forall|ix: CreditInstruction| !#[trigger] instruction_decodes_to(data@, ix) by {
                    if instruction_decodes_to(data@, ix) {
                        assert(encode_instruction(ix)[0] == data@[0]);
                    }
                }
                return Err(LedgerError::CorruptRecord);
            }
            let address = address_at(data, 1);
            let ix = CreditInstruction::SetTokenAddress { address };
            assert(encode_instruction(ix) =~= data@);
            Ok(ix)
        } else if tag == TAG_ADD {
            if len != ADD_LEN {
                assert forall|ix: CreditInstruction| !#[trigger] instruction_decodes_to(data@, ix) by {
                    if instruction_decodes_to(data@, ix) {
                        assert(encode_instruction(ix)[0] == data@[0]);
                    }
                }
                return Err(LedgerError::CorruptRecord);
            }
            let pk = address_at(data, 1);
            let campaign = read_le2(data, 33);
            let bits = read_le4(data, 35);
            let reward_since = read_le4(data, 39);
            let credit: i32 = if bits <= 0x7fff_ffff {
                bits as i32
            } else {
                (bits as i64 - 0x1_0000_0000) as i32
            };
            assert(i32_bits(credit) == bits);
            let ix = CreditInstruction::Add { pk, campaign, credit, reward_since };
            assert(encode_instruction(ix) =~= data@);
            Ok(ix)
        } else if tag == TAG_INIT {
            proof {
                assert forall|ix: CreditInstruction| #[trigger] instruction_decodes_to(data@, ix)
                    implies ix is Init by {
                    assert(encode_instruction(ix)[0] == data@[0]);
                }
            }
            if len < 1 + PREFIX_LEN + 32 {
                assert forall|ix: CreditInstruction| !#[trigger] instruction_decodes_to(data@, ix) by {
                    if instruction_decodes_to(data@, ix) {
                        if let CreditInstruction::Init { settings, token } = ix {
                            assert(encode_settings(settings@).len() >= 4);
                        }
                    }
                }
                return Err(LedgerError::CorruptRecord);
            }
            let settings_len = len - 1 - 32;
            let settings = match decode_settings_at(data, 1, settings_len) {
                Ok(s) => s,
                Err(e) => {
                    assert forall|ix: CreditInstruction| !#[trigger] instruction_decodes_to(data@, ix) by {
                        if instruction_decodes_to(data@, ix) {
                            if let CreditInstruction::Init { settings, token } = ix {
                                let es = encode_settings(settings@);
                                assert(token.token@.len() == 32);
                                assert(data@.subrange(1, 1 + settings_len as int) =~= es);
                                assert(settings_decode_to(data@.subrange(1, 1 + settings_len as int), settings@));
                            }
                        }
                    }
                    return Err(e);
                },
            };
            let token = address_at(data, 1 + settings_len);
            let ix = CreditInstruction::Init { settings, token: TokenAccount { token } };
            proof {
                let sub = data@.subrange(1, 1 + settings_len as int);
                let c = choose|c: Seq<CreditSetting>| settings_decode_to(sub, c);
                assert(settings_decode_to(sub, c));
                assert(encode_instruction(ix) =~= data@);
            }
            Ok(ix)
        } else {
            Err(LedgerError::UnknownInstruction)
        }
    }
}

} // verus!
