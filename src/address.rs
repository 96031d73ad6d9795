use vstd::prelude::*;
use vstd::string::{StrSliceExecFns, StringSliceAdditionalSpecFns};

use crate::error::LedgerError;
use crate::state::Address;

verus! {

/// Namespace tag of the token-reference record.
pub const TOKEN_SEED: &'static str = "dpr_token";

/// Namespace tag of the settings record.
pub const CREDIT_SETTING_SEED: &'static str = "credit_setting";

/// Namespace tag of the participant records.
pub const USER_CREDIT_SEED: &'static str = "user";

/// Namespace tag of the mint-authority capability.
pub const MINT_AUTHORITY_SEED: &'static str = "mint_authority";

/// The program-derived address of `seeds` under `program_id`, with its bump
/// seed, or `None` where no bump seed yields one.
pub uninterp spec fn program_address(seeds: Seq<Seq<u8>>, program_id: Seq<u8>) -> Option<(Seq<u8>, u8)>;

/// Relies on solana_program's `Pubkey::try_find_program_address`: the
/// derived address and bump seed depend on the seeds and the program id alone.
#[verifier::external_body]
fn find_program_address(seeds: &Vec<Vec<u8>>, program_id: &Address) -> (r: Option<(Address, u8)>)
    ensures
        match r {
            Some((a, bump)) => program_address(seeds.deep_view(), program_id@) == Some((a@, bump)),
            None => program_address(seeds.deep_view(), program_id@) is None,
        },
{
    let refs: Vec<&[u8]> = seeds.iter().map(|s| s.as_slice()).collect();
    let program = solana_program::pubkey::Pubkey::new_from_array(program_id.bytes);
    solana_program::pubkey::Pubkey::try_find_program_address(&refs, &program).map(
        |(key, bump)| (Address { bytes: key.to_bytes() }, bump),
    )
}

/// The seeds of the settings record.
pub open spec fn settings_seeds() -> Seq<Seq<u8>> {
    seq![CREDIT_SETTING_SEED.spec_bytes()]
}

/// The seeds of the token-reference record.
pub open spec fn token_seeds() -> Seq<Seq<u8>> {
    seq![TOKEN_SEED.spec_bytes()]
}

/// The seeds of the mint-authority capability.
pub open spec fn mint_authority_seeds() -> Seq<Seq<u8>> {
    seq![MINT_AUTHORITY_SEED.spec_bytes()]
}

/// The seeds of the record of participant `user`.
pub open spec fn user_seeds(user: Seq<u8>) -> Seq<Seq<u8>> {
    seq![USER_CREDIT_SEED.spec_bytes(), user]
}

/// The outcome of checking a supplied address against the derivation from
/// `seeds`: its bump seed when the two agree, `AddressMismatch` otherwise.
pub open spec fn address_check(seeds: Seq<Seq<u8>>, program_id: Seq<u8>, supplied: Seq<u8>) -> Result<
    u8,
    LedgerError,
> {
    match program_address(seeds, program_id) {
        Some((a, bump)) => if a == supplied {
            Ok(bump)
        } else {
            Err(LedgerError::AddressMismatch)
        },
        None => Err(LedgerError::AddressMismatch),
    }
}

/// Derives the address for `seeds` and compares it with `supplied`: the sole
/// authorization gate of the ledger.
fn verify_seeds(seeds: &Vec<Vec<u8>>, program_id: &Address, supplied: &Address) -> (r: Result<
    u8,
    LedgerError,
>)
    ensures
        r == address_check(seeds.deep_view(), program_id@, supplied@),
{
    match find_program_address(seeds, program_id) {
        Some((a, bump)) => {
            if a == *supplied {
                Ok(bump)
            } else {
                Err(LedgerError::AddressMismatch)
            }
        },
        None => Err(LedgerError::AddressMismatch),
    }
}

fn seed_list1(tag: &str) -> (r: Vec<Vec<u8>>)
    ensures
        r.deep_view() == seq![tag.spec_bytes()],
{
    let mut r: Vec<Vec<u8>> = Vec::new();
    let bytes = tag.as_bytes_vec();
    assert(bytes.deep_view() =~= bytes@);
    r.push(bytes);
    assert(r.deep_view() =~= seq![tag.spec_bytes()]);
    r
}

/// Checks the supplied settings address; on success, its bump seed.
pub fn verify_settings_address(program_id: &Address, supplied: &Address) -> (r: Result<u8, LedgerError>)
    ensures
        r == address_check(settings_seeds(), program_id@, supplied@),
{
    verify_seeds(&seed_list1(CREDIT_SETTING_SEED), program_id, supplied)
}

/// Checks the supplied token-reference address; on success, its bump seed.
pub fn verify_token_address(program_id: &Address, supplied: &Address) -> (r: Result<u8, LedgerError>)
    ensures
        r == address_check(token_seeds(), program_id@, supplied@),
{
    verify_seeds(&seed_list1(TOKEN_SEED), program_id, supplied)
}

/// Checks the supplied mint-authority address; on success, its bump seed.
pub fn verify_mint_authority_address(program_id: &Address, supplied: &Address) -> (r: Result<
    u8,
    LedgerError,
>)
    ensures
        r == address_check(mint_authority_seeds(), program_id@, supplied@),
{
    verify_seeds(&seed_list1(MINT_AUTHORITY_SEED), program_id, supplied)
}

/// Checks the supplied address of participant `user`'s record; on success,
/// its bump seed.
pub fn verify_user_address(program_id: &Address, user: &Address, supplied: &Address) -> (r: Result<
    u8,
    LedgerError,
>)
    ensures
        r == address_check(user_seeds(user@), program_id@, supplied@),
{
    let mut seeds: Vec<Vec<u8>> = Vec::new();
    let tag = USER_CREDIT_SEED.as_bytes_vec();
    assert(tag.deep_view() =~= tag@);
    seeds.push(tag);
    let mut key: Vec<u8> = Vec::new();
    let mut i: usize = 0;
    while i < 32
        invariant
            0 <= i <= 32,
            key@ == user@.subrange(0, i as int),
        decreases 32 - i,
    {
        key.push(user.bytes[i]);
        assert(key@ =~= user@.subrange(0, i + 1));
        i = i + 1;
    }
    assert(user@.subrange(0, 32) =~= user@);
    assert(key.deep_view() =~= key@);
    seeds.push(key);
    assert(seeds.deep_view() =~= user_seeds(user@));
    verify_seeds(&seeds, program_id, supplied)
}

} // verus!
