//! A guard over request handlers: which of those that a request can reach are unfinished.

pub mod handler_set;
pub mod listing;
pub mod meaning;
pub mod syntax;
pub mod table;
pub mod taint;
pub mod guard;
