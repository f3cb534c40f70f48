//! A small persistent registry that maps human-readable file names to
//! content-addressed storage locators, scoped under a single named directory
//! owned by one identity.
//!
//! The registry state machine owns one persisted record (the directory
//! state) and exposes three operations — `init`, `handle` (registration) and
//! `query` (lookup) — that read and mutate that record through a byte-keyed
//! key-value store supplied by the host.

pub mod assoc;
pub mod error;
pub mod store;
pub mod codec;
pub mod contract;
pub mod laws;
pub mod msg;
pub mod state;
