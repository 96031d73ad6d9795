use vstd::prelude::*;

verus! {

/// The failures that the ledger's operations report to their caller.
#[derive(Debug, Clone, Copy, PartialEq, Eq, Structural)]
pub enum LedgerError {
    /// A caller-supplied address differs from the one derived for the same inputs.
    AddressMismatch,
    /// Init found data already stored in the settings or token-reference slot.
    AlreadyInitialized,
    /// A length prefix or payload that does not decode.
    CorruptRecord,
    /// A history or payload that would not fit its fixed capacity.
    CapacityExceeded,
    /// An operation tag that names no operation.
    UnknownInstruction,
}

} // verus!
