//! What can go wrong in the transaction pool store.

use vstd::prelude::*;

verus! {

/// Txpool error.
#[derive(Debug)]
pub enum TxPoolError {
    /// The key-value store reports an error.
    Fjall(fjall::Error),
    /// The store was written in a format that this library does not read.
    DbFormatVersionMismatch { expected: u64, found: u64 },
    /// A key that has to be there is not.
    NotFound,
}

} // verus!
