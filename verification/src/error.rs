//! The ways in which a ledger operation can be refused.

use vstd::prelude::*;

verus! {

/// Why an operation did not go through. Every refusal is recoverable: the
/// caller gets the reason and the ledger stays usable.
#[derive(Debug, Clone, Copy, PartialEq, Eq, Structural)]
pub enum Error {
    /// The sending address has no account.
    SenderNotFound,
    /// The sender holds `balance`, which is less than the `needed` amount.
    InsufficientBalance { balance: u64, needed: u64 },
    /// Mining was asked for while no transaction was pending.
    EmptyQueue,
    /// Every pending transaction was refused when it was applied.
    AllTransactionsInvalid,
    /// No nonce in the whole 64-bit range seals the block at its difficulty.
    NonceSpaceExhausted,
}

} // verus!
