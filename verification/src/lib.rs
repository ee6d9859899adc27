//! Two ledger-state contracts for a deterministic host: an asset-ownership
//! registry and a small voting registry.
//!
//! The asset registry keeps a uniqueness-constrained store of assets, a
//! per-owner bounded index into that store, and a transfer protocol that
//! keeps both structures consistent under all-or-nothing call semantics.
//! The host is responsible for sequencing calls, for persisting the state
//! between calls, and for supplying the randomness seed and the clock
//! reading that a creation consumes; the registry itself is a pure
//! synchronous state-transition machine over that state.

pub mod asset;
pub mod ballot;
pub mod bytes;
pub mod errors;
pub mod identity;
pub mod laws;
pub mod owner_index;
pub mod registry;
pub mod store;
