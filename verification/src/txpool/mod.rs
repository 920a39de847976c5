//! The store of the transactions that wait for a block.

pub mod error;
pub mod format_version;
pub mod opening;
