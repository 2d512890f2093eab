//! An append-only registry of announcements for a ledger that keeps
//! storage in accounts.
//!
//! A registry is one account that holds an [`state::AnnounceState`]: a
//! flag, the reference of the announcement appended last, and a counter.
//! Each announcement is an account of its own that holds an
//! [`state::Announcement`] and points to the one appended before it, so
//! that the announcements form a chain from the registry's root to the
//! empty reference. [`processor::Processor`] is the state machine that
//! initializes a registry and appends to it; [`chain`] states what holds
//! of the chain over many calls.

pub mod account;
pub mod chain;
pub mod error;
pub mod instruction;
pub mod processor;
pub mod rent;
pub mod state;
pub mod wire;
