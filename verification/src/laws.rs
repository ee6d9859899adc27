//! The registry's structural laws, each stated and proved once over any
//! well-formed state.  Every call of the engine establishes `wf()` for
//! the state it commits, so these hold after every committed call.

use vstd::prelude::*;

use crate::owner_index::ids_of;
use crate::registry::RegistryEngine;

verus! {

/// Uniqueness: no two committed assets share an identity.
pub proof fn lemma_identity_uniqueness(r: RegistryEngine, i: int, j: int)
    requires
        r.wf(),
        0 <= i < r.store.assets@.len(),
        0 <= j < r.store.assets@.len(),
        i != j,
    ensures
        r.store.assets@[i].identity@ != r.store.assets@[j].identity@,
{
    if i < j {
        assert(r.store.assets@[i].identity@ != r.store.assets@[j].identity@);
    } else {
        assert(r.store.assets@[j].identity@ != r.store.assets@[i].identity@);
    }
}

/// Referential consistency: every identity listed for an owner resolves
/// to a record whose owner is that owner.
pub proof fn lemma_referential_consistency(r: RegistryEngine, o: u64, id: Seq<u8>)
    requires
        r.wf(),
        r.owned.owned_ids(o).contains(id),
    ensures
        r.store.has(id),
        r.store.at(id).owner == o,
{
    let j = choose|j: int| 0 <= j < r.owned.owned_ids(o).len() && r.owned.owned_ids(o)[j] == id;
    assert(r.store.has(r.owned.owned_ids(o)[j]));
}

/// Completeness: every committed asset's identity is listed under its
/// owner.
pub proof fn lemma_completeness(r: RegistryEngine, id: Seq<u8>)
    requires
        r.wf(),
        r.store.has(id),
    ensures
        r.owned.owned_ids(r.store.at(id).owner).contains(id),
{
}

/// Capacity: no owner ever holds more identities than the configured
/// capacity.
pub proof fn lemma_capacity_invariant(r: RegistryEngine, o: u64)
    requires
        r.wf(),
    ensures
        r.owned.owned_ids(o).len() <= r.owned.capacity,
{
    if r.owned.has_entry(o) {
        let i = r.owned.entry_at(o);
        assert(ids_of(r.owned.entries@[i]).len() <= r.owned.capacity);
    }
}

/// An owner's list never lists one identity twice.
pub proof fn lemma_no_duplicate_holdings(r: RegistryEngine, o: u64, j: int, k: int)
    requires
        r.wf(),
        0 <= j < r.owned.owned_ids(o).len(),
        0 <= k < r.owned.owned_ids(o).len(),
        j != k,
    ensures
        r.owned.owned_ids(o)[j] != r.owned.owned_ids(o)[k],
{
    if j < k {
        assert(r.owned.owned_ids(o)[j] != r.owned.owned_ids(o)[k]);
    } else {
        assert(r.owned.owned_ids(o)[k] != r.owned.owned_ids(o)[j]);
    }
}

} // verus!
