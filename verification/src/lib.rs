//! A memory aid for passwords: salted digests are kept under names of the
//! user's choosing, and from time to time the user is asked to type a
//! password from memory.
//!
//! The library holds what is decided and computed: how a password is
//! digested and checked, which entries are asked for and when, how many tries
//! each gets, and when the time of asking is recorded. Reading and writing
//! files, the terminal and the clock are left to the program around it, which
//! hands in plain values and acts on what comes back.

pub mod commands;
pub mod config;
pub mod decimal;
pub mod entry;
pub mod error;
pub mod span;
pub mod state;
pub mod store;
pub mod text;
pub mod trusted;
pub mod util;
pub mod wait;
