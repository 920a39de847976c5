//! Consistency rules of a node: its stores, its event stream and its sources.

pub mod blockchain;
pub mod bytes;
pub mod events;
pub mod seqs;
pub mod text;
pub mod todo_guard;
pub mod toolchain_pin;
pub mod txpool;
