//! A minimal append-only ledger: a hash-linked chain of blocks, each holding a
//! batch of value-transfer transactions validated against the set of unspent
//! outputs, with new blocks admitted only after a proof-of-work search.

use vstd::prelude::*;

pub mod block;
pub mod chain;
pub mod codec;
pub mod hashing;
pub mod pow;
pub mod transaction;

verus! {

/// Every way a block or a transaction can be rejected.  A rejected block or
/// transaction leaves the chain unchanged.
#[derive(Clone, Copy, Debug, PartialEq, Eq, Structural)]
pub enum Error {
    /// The candidate block does not reference the current tip's hash.
    InvalidPreviousHash,
    /// The candidate block's height is not the tip's height plus one.
    InvalidHeight,
    /// The block's hash does not fall below the proof-of-work target.
    InvalidProofOfWork,
    /// A transaction fails signature checking, references a missing output,
    /// or spends an output that is already consumed.
    InvalidTransaction,
    /// A transfer asks for more value than the spendable outputs carry.
    InsufficientFunds,
    /// A block must carry at least one transaction (the coinbase).
    EmptyTransactionSet,
    /// The nonce space was exhausted without finding a hash below the
    /// target: the configured difficulty is too high for the nonce width.
    NonceSpaceExhausted,
}

} // verus!
