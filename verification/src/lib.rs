//! A confidential account-chain ledger: each account keeps its own signed
//! chain of transactions, amounts are either public integers or ElGamal
//! ciphertexts with Bulletproofs range proofs, and a single-writer engine
//! admits transactions after a signature check, a range-proof check, a walk
//! of the sender's chain, and a balance check.

use vstd::prelude::*;

pub mod address;
pub mod blocklattice;
pub mod bytes;
pub mod codec;
pub mod confidential;
mod crypto;
pub mod gossip;
pub mod ledger;
pub mod rpc;
pub mod store;
pub mod transaction;

verus! {

/// The error kinds the ledger surfaces to its callers.
#[derive(Debug, Clone, Copy, PartialEq, Eq)]
pub enum LedgerError {
    /// Malformed input handed directly to a function that must decode it:
    /// wrong lengths, non-hex text, an undecodable key or ciphertext point.
    /// A stored point that fails to decode during the chain walk counts as
    /// a failed comparison instead.
    BadRequest,
    /// ECDSA verification failed.
    InvalidSignature,
    /// A referenced previous transaction is missing, or the chain does not
    /// end at a public amount.
    ChainBroken,
    /// A Bulletproofs range proof was rejected.
    InvalidRangeProof,
    /// A public balance would underflow, or a confidential chain comparison
    /// failed.
    InsufficientBalance,
    /// The store cannot take another record.
    Storage,
    /// An internal invariant failed, such as a decryption search exhausted.
    Internal,
}

} // verus!
