//! What can go wrong in the blockchain store.

use vstd::prelude::*;

verus! {

/// The error of input and output in `std`.
#[verifier::external_type_specification]
#[verifier::external_body]
pub struct ExIoError(std::io::Error);

/// The error of the key-value store.
#[verifier::external_type_specification]
#[verifier::external_body]
pub struct ExFjallError(fjall::Error);

/// The result of an operation on the blockchain store.
pub type DbResult<T> = Result<T, BlockchainError>;

/// A blockchain error.
#[derive(Debug)]
pub enum BlockchainError {
    /// The operating system, or what reads a stored value, reports an error.
    IO(std::io::Error),
    /// The key-value store reports an error.
    Fjall(fjall::Error),
    /// What is stored contradicts itself; the text says where.
    Corrupt(&'static str),
    /// A key that has to be there is not.
    NotFound,
}

} // verus!
