//! Verified core of a font synchronization system.
//!
//! The crate keeps a set of font files consistent between a central store and
//! many participating machines.  It is organised around three verified
//! components: a content-addressed fingerprint store with a change detector,
//! a broadcast hub with heartbeat-based eviction of dead sessions, and a
//! reconciliation engine that computes transfer plans between two inventories
//! and resolves naming conflicts deterministically.

pub mod assoc;
pub mod client;
pub mod fontfile;
pub mod hashing;
pub mod hub;
pub mod inventory;
pub mod listing;
pub mod protocol;
pub mod reconcile;
pub mod store;
pub mod text;
pub mod transfer;
