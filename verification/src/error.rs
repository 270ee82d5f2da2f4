//! Consensus error taxonomy.
//!
//! Every fallible operation of the core returns one of these kinds; none of
//! the verified functions panic.

use vstd::prelude::*;

verus! {

/// Why a block or transaction was rejected.
#[derive(Debug, Clone, PartialEq, Eq)]
pub enum Error {
    /// A signature could not be verified against its declared public key.
    BadSignature,
    /// A referenced UTXO is absent from the current ledger state.
    MissingUtxo,
    /// The same output is spent more than once within a single block.
    DoubleSpend,
    /// The sum of a transaction's outputs exceeds the sum of its inputs.
    ValueOverflow,
    /// A block's `prev_hash` does not match the current tip.
    PrevHashMismatch,
    /// A block's height is not exactly one greater than the current height.
    NonSequentialHeight,
    /// A block header hash does not satisfy the difficulty target.
    DifficultyFail,
    /// An error originating outside this core's taxonomy.
    Other(&'static str),
}

} // verus!
