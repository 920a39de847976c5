//! The blockchain store: its layout, the check that its two halves agree, and the rebuild of one
//! from the other.

pub mod consistency;
pub mod error;
pub mod layout;
pub mod rebuild;
pub mod recovery;
pub mod synthetic;
pub mod tables;
pub mod transaction;
