//! The failure taxonomy of the asset registry.

use vstd::prelude::*;

verus! {

/// Every way a registry call can abort.  All of these are recoverable at
/// the call boundary: they abort only the current call and never corrupt
/// the committed state.
#[derive(Clone, Copy, Debug, PartialEq, Eq, Structural)]
pub enum Error {
    /// An insert found an asset that already carries the same identity.
    DuplicateIdentity,
    /// An append would push an owner's holdings past the configured capacity.
    CapacityExceeded,
    /// A lookup found no asset under the requested identity.
    AssetNotFound,
    /// The caller does not own the asset it tried to move.
    NotOwner,
    /// The caller asked to transfer an asset to itself.
    SelfTransfer,
    /// The asset counter cannot be advanced any further.
    CounterOverflow,
}

} // verus!
