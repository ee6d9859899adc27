//! The registry engine: the `create` and `transfer` state transitions
//! over the shared ledger state, with all-or-nothing semantics.
//!
//! Every call either commits — all of its writes applied and one event
//! recorded — or aborts with an error and leaves the store, the owner
//! index, the asset counter and the event log exactly as they were.  The
//! one documented exception is the nonce, which advances on every
//! creation attempt, successful or not, so that identities are never
//! replayed across failed attempts.

use vstd::prelude::*;

use crate::asset::{clone_asset, gender_for, gender_of, Asset, AssetView};
use crate::bytes::clone_bytes;
use crate::errors::Error;
use crate::identity::{generate, identity_of};
use crate::owner_index::{swap_removed, OwnerIndex};
use crate::store::AssetStore;

verus! {

/// A notification recorded when a call commits; the host delivers these
/// to observers only after the commit.
#[derive(Debug, PartialEq, Eq)]
pub enum Event {
    Created { identity: Vec<u8>, owner: u64 },
    Transferred { from: u64, to: u64, identity: Vec<u8> },
}

/// The mathematical value of an event.
#[verifier::ext_equal]
pub ghost enum EventView {
    Created { identity: Seq<u8>, owner: u64 },
    Transferred { from: u64, to: u64, identity: Seq<u8> },
}

impl View for Event {
    type V = EventView;

    open spec fn view(&self) -> EventView {
        match self {
            Event::Created { identity, owner } => EventView::Created {
                identity: identity@,
                owner: *owner,
            },
            Event::Transferred { from, to, identity } => EventView::Transferred {
                from: *from,
                to: *to,
                identity: identity@,
            },
        }
    }
}

/// The whole ledger state of the asset registry, owned by the engine for
/// the duration of one call; the host persists it between calls.
pub struct RegistryEngine {
    /// Advances on every creation attempt; mixed into identity derivation.
    pub nonce: u32,
    /// Counts committed creations.
    pub next_id: u32,
    /// The keyed store of asset records.
    pub store: AssetStore,
    /// The per-owner bounded index into the store.
    pub owned: OwnerIndex,
    /// Events recorded by committed calls, in commit order.
    pub events: Vec<Event>,
}

impl RegistryEngine {
    /// The recorded events as mathematical values.
    pub open spec fn events_view(self) -> Seq<EventView> {
        self.events@.map_values(|e: Event| e@)
    }

    /// Whether a creation for this nonce and seed would collide with an
    /// asset already in the store.
    pub open spec fn create_would_duplicate(self, seed: Seq<u8>) -> bool {
        self.store.has(identity_of(self.nonce, seed))
    }

    /// Whether the asset counter cannot be advanced any further.
    pub open spec fn counter_exhausted(self) -> bool {
        self.next_id == u32::MAX
    }

    /// Whether this owner already holds as many assets as the capacity
    /// allows.
    pub open spec fn at_capacity(self, o: u64) -> bool {
        self.owned.owned_ids(o).len() >= self.owned.capacity
    }

    /// The preconditions under which a transfer commits.
    pub open spec fn transfer_allowed(self, caller: u64, to: u64, id: Seq<u8>) -> bool {
        &&& self.store.has(id)
        &&& self.store.at(id).owner == caller
        &&& caller != to
        &&& !self.at_capacity(to)
    }

    /// The invariants of every committed state: the store and the index
    /// are well-formed, no owner's list repeats an identity, every listed
    /// identity resolves to a record owned by that owner, and every
    /// record's identity is listed under its owner.
    pub open spec fn wf(self) -> bool {
        &&& self.store.wf()
        &&& self.owned.wf()
        &&& forall|o: u64, j: int, k: int|
            0 <= j < k < self.owned.owned_ids(o).len() ==> #[trigger] self.owned.owned_ids(o)[j]
                != #[trigger] self.owned.owned_ids(o)[k]
        &&& forall|o: u64, j: int|
            0 <= j < self.owned.owned_ids(o).len() ==> self.store.has(
                #[trigger] self.owned.owned_ids(o)[j],
            ) && self.store.at(self.owned.owned_ids(o)[j]).owner == o
        &&& forall|x: Seq<u8>|
            #[trigger] self.store.has(x) ==> self.owned.owned_ids(self.store.at(x).owner).contains(
                x,
            )
    }

    /// A fresh, empty registry whose owners may hold at most `capacity`
    /// assets each.
    pub fn new(capacity: usize) -> (r: RegistryEngine)
        ensures
            r.wf(),
            r.nonce == 0,
            r.next_id == 0,
            r.owned.capacity == capacity,
            forall|x: Seq<u8>| !r.store.has(x),
            forall|o: u64| #[trigger] r.owned.owned_ids(o) == Seq::<Seq<u8>>::empty(),
            r.events@.len() == 0,
    {
        RegistryEngine {
            nonce: 0,
            next_id: 0,
            store: AssetStore::new(),
            owned: OwnerIndex::new(capacity),
            events: Vec::new(),
        }
    }

    /// Looks an asset up by identity.
    pub fn get_asset(&self, identity: &Vec<u8>) -> (r: Result<Asset, Error>)
        requires
            self.wf(),
        ensures
            match r {
                Ok(a) => self.store.has(identity@) && a@ == self.store.at(identity@),
                Err(e) => e == Error::AssetNotFound && !self.store.has(identity@),
            },
    {
        match self.store.get(identity) {
            Some(a) => Ok(clone_asset(a)),
            None => Err(Error::AssetNotFound),
        }
    }

    /// The identities this owner currently holds (empty when it holds
    /// nothing).
    pub fn list_owned(&self, owner: u64) -> (r: Vec<Vec<u8>>)
        requires
            self.wf(),
        ensures
            r@.map_values(|v: Vec<u8>| v@) == self.owned.owned_ids(owner),
    {
        self.owned.list(owner)
    }

    /// Creates a fresh asset for the caller, deriving its identity from
    /// the current nonce and the host-supplied randomness seed and its
    /// creation time from the host-supplied clock reading.
    ///
    /// The nonce advances whether or not the call commits.  Everything
    /// else is untouched on an abort: a duplicate identity is rejected
    /// before any write, and a full owner is rejected before the store
    /// is touched.
    pub fn create_asset(&mut self, caller: u64, seed: &Vec<u8>, now: u64) -> (r: Result<
        Vec<u8>,
        Error,
    >)
        requires
            old(self).wf(),
        ensures
            final(self).wf(),
            final(self).nonce == old(self).nonce.wrapping_add(1),
            final(self).owned.capacity == old(self).owned.capacity,
            r is Ok <==> {
                &&& !old(self).create_would_duplicate(seed@)
                &&& !old(self).counter_exhausted()
                &&& !old(self).at_capacity(caller)
            },
            match r {
                Ok(id) => {
                    &&& id@ == identity_of(old(self).nonce, seed@)
                    &&& final(self).store.has(id@)
                    &&& final(self).store.at(id@) == (AssetView {
                        identity: id@,
                        attribute: gender_of(id@),
                        price: 0,
                        owner: caller,
                        created_at: now,
                    })
                    &&& forall|x: Seq<u8>|
                        x != id@ ==> #[trigger] final(self).store.has(x) == old(self).store.has(x)
                    &&& forall|x: Seq<u8>|
                        x != id@ && old(self).store.has(x) ==> #[trigger] final(self).store.at(x)
                            == old(self).store.at(x)
                    &&& final(self).owned.owned_ids(caller) == old(self).owned.owned_ids(
                        caller,
                    ).push(id@)
                    &&& forall|o: u64|
                        o != caller ==> #[trigger] final(self).owned.owned_ids(o) == old(self).owned.owned_ids(o)
                    &&& final(self).next_id == old(self).next_id + 1
                    &&& final(self).events_view() == old(self).events_view().push(
                        EventView::Created { identity: id@, owner: caller },
                    )
                },
                Err(e) => {
                    &&& final(self).store == old(self).store
                    &&& final(self).owned == old(self).owned
                    &&& final(self).next_id == old(self).next_id
                    &&& final(self).events == old(self).events
                    &&& (e == Error::DuplicateIdentity <==> old(self).create_would_duplicate(
                        seed@,
                    ))
                    &&& (e == Error::CounterOverflow <==> !old(self).create_would_duplicate(seed@)
                        && old(self).counter_exhausted())
                    &&& (e == Error::CapacityExceeded <==> !old(self).create_would_duplicate(seed@)
                        && !old(self).counter_exhausted() && old(self).at_capacity(caller))
                },
            },
    {
        let nonce = self.nonce;
        self.nonce = nonce.wrapping_add(1);
        let identity = generate(nonce, seed);
        if self.store.contains(&identity) {
            return Err(Error::DuplicateIdentity);
        }
        if self.next_id == u32::MAX {
            return Err(Error::CounterOverflow);
        }
        let next = self.next_id + 1;
        let attribute = gender_for(&identity);
        match self.owned.try_append(caller, clone_bytes(&identity)) {
            Err(e) => {
                return Err(e);
            },
            Ok(()) => {},
        }
        let asset = Asset { identity: clone_bytes(&identity), attribute, price: 0, owner: caller, created_at: now };
        match self.store.insert(asset) {
            Err(e) => {
                return Err(e);
            },
            Ok(()) => {},
        }
        self.next_id = next;
        self.events.push(Event::Created { identity: clone_bytes(&identity), owner: caller });
        proof {
            let pre = *old(self);
            let idv = identity_of(pre.nonce, seed@);
            let sn = self.store;
            let on = self.owned;
            let s0 = pre.owned.owned_ids(caller);
            assert(on.owned_ids(caller) == s0.push(idv));
            assert forall|o: u64, j: int, k: int|
                0 <= j < k < on.owned_ids(o).len() implies #[trigger] on.owned_ids(o)[j]
                != #[trigger] on.owned_ids(o)[k] by {
                if o == caller {
                    if k == s0.len() as int {
                        assert(on.owned_ids(caller)[k] == idv);
                        assert(on.owned_ids(caller)[j] == s0[j]);
                        assert(pre.owned.owned_ids(caller)[j] == s0[j]);
                        assert(pre.store.has(pre.owned.owned_ids(caller)[j]));
                        assert(s0[j] != idv);
                    } else {
                        assert(pre.owned.owned_ids(caller)[j] != pre.owned.owned_ids(caller)[k]);
                    }
                } else {
                    assert(on.owned_ids(o) == pre.owned.owned_ids(o));
                    assert(pre.owned.owned_ids(o)[j] != pre.owned.owned_ids(o)[k]);
                }
            }
            assert forall|o: u64, j: int| 0 <= j < on.owned_ids(o).len() implies sn.has(
                #[trigger] on.owned_ids(o)[j],
            ) && sn.at(on.owned_ids(o)[j]).owner == o by {
                if o == caller && j == s0.len() as int {
                    assert(on.owned_ids(caller)[j] == idv);
                } else {
                    let x = on.owned_ids(o)[j];
                    assert(x == pre.owned.owned_ids(o)[j]);
                    assert(pre.store.has(pre.owned.owned_ids(o)[j]));
                    assert(pre.store.at(x).owner == o);
                    assert(x != idv);
                }
            }
            assert forall|x: Seq<u8>| #[trigger] sn.has(x) implies on.owned_ids(
                sn.at(x).owner,
            ).contains(x) by {
                if x == idv {
                    assert(sn.at(idv).owner == caller);
                    assert(on.owned_ids(caller)[s0.len() as int] == idv);
                } else {
                    assert(pre.store.has(x));
                    assert(sn.at(x) == pre.store.at(x));
                    let o = pre.store.at(x).owner;
                    assert(pre.owned.owned_ids(o).contains(x));
                    let w = choose|w: int|
                        0 <= w < pre.owned.owned_ids(o).len() && pre.owned.owned_ids(o)[w] == x;
                    if o == caller {
                        assert(on.owned_ids(caller)[w] == x);
                    } else {
                        assert(on.owned_ids(o) == pre.owned.owned_ids(o));
                    }
                    assert(on.owned_ids(o)[w] == x);
                }
            }
            assert(self.events_view() =~= pre.events_view().push(
                EventView::Created { identity: idv, owner: caller },
            ));
            assert(sn.at(idv) =~= AssetView {
                identity: idv,
                attribute: gender_of(idv),
                price: 0,
                owner: caller,
                created_at: now,
            });
        }
        Ok(identity)
    }

    /// Transfers the asset carrying this identity from the caller to
    /// `to`, rewriting the record's owner and moving the identity from
    /// the caller's list to the destination's.
    ///
    /// Every failure-prone check runs strictly before any write, so an
    /// abort leaves the whole state exactly as it was.  Removal from the
    /// caller's list swaps the last identity into the vacated slot, so
    /// the caller's remaining identities may be reordered.
    pub fn transfer(&mut self, caller: u64, to: u64, identity: &Vec<u8>) -> (r: Result<(), Error>)
        requires
            old(self).wf(),
        ensures
            final(self).wf(),
            final(self).nonce == old(self).nonce,
            final(self).next_id == old(self).next_id,
            final(self).owned.capacity == old(self).owned.capacity,
            r is Ok <==> old(self).transfer_allowed(caller, to, identity@),
            match r {
                Ok(()) => {
                    &&& final(self).store.has(identity@)
                    &&& final(self).store.at(identity@) == (AssetView {
                        owner: to,
                        ..old(self).store.at(identity@)
                    })
                    &&& forall|x: Seq<u8>| #[trigger]
                        final(self).store.has(x) == old(self).store.has(x)
                    &&& forall|x: Seq<u8>|
                        x != identity@ && old(self).store.has(x) ==> #[trigger] final(self).store.at(x) == old(self).store.at(x)
                    &&& exists|i: int|
                        0 <= i < old(self).owned.owned_ids(caller).len() && #[trigger] old(self).owned.owned_ids(caller)[i] == identity@ && final(self).owned.owned_ids(
                            caller,
                        ) == swap_removed(old(self).owned.owned_ids(caller), i)
                    &&& final(self).owned.owned_ids(to) == old(self).owned.owned_ids(to).push(
                        identity@,
                    )
                    &&& forall|o: u64|
                        o != caller && o != to ==> #[trigger] final(self).owned.owned_ids(o) == old(self).owned.owned_ids(o)
                    &&& final(self).events_view() == old(self).events_view().push(
                        EventView::Transferred { from: caller, to, identity: identity@ },
                    )
                },
                Err(e) => {
                    &&& final(self).store == old(self).store
                    &&& final(self).owned == old(self).owned
                    &&& final(self).events == old(self).events
                    &&& (e == Error::AssetNotFound <==> !old(self).store.has(identity@))
                    &&& (e == Error::NotOwner <==> old(self).store.has(identity@) && old(self).store.at(identity@).owner != caller)
                    &&& (e == Error::SelfTransfer <==> old(self).store.has(identity@) && old(self).store.at(identity@).owner == caller && caller == to)
                    &&& (e == Error::CapacityExceeded <==> old(self).store.has(identity@) && old(self).store.at(identity@).owner == caller && caller != to && old(self).at_capacity(
                        to,
                    ))
                },
            },
    {
        let owner = match self.store.get(identity) {
            None => {
                return Err(Error::AssetNotFound);
            },
            Some(a) => a.owner,
        };
        if owner != caller {
            return Err(Error::NotOwner);
        }
        if caller == to {
            return Err(Error::SelfTransfer);
        }
        if self.owned.count(to) >= self.owned.capacity {
            return Err(Error::CapacityExceeded);
        }
        proof {
            let pre = *old(self);
            assert(pre.store.has(identity@));
            assert(pre.owned.owned_ids(pre.store.at(identity@).owner).contains(identity@));
        }
        match self.owned.remove(caller, identity) {
            Err(e) => {
                proof {
                    assert(false);
                }
                return Err(e);
            },
            Ok(()) => {},
        }
        let ghost mid = self.owned;
        match self.owned.try_append(to, clone_bytes(identity)) {
            Err(e) => {
                proof {
                    assert(mid.owned_ids(to) == old(self).owned.owned_ids(to));
                    assert(false);
                }
                return Err(e);
            },
            Ok(()) => {},
        }
        match self.store.set_owner(identity, to) {
            Err(e) => {
                proof {
                    assert(false);
                }
                return Err(e);
            },
            Ok(()) => {},
        }
        self.events.push(Event::Transferred { from: caller, to, identity: clone_bytes(identity) });
        proof {
            let pre = *old(self);
            let idv = identity@;
            let sn = self.store;
            let on = self.owned;
            let s0 = pre.owned.owned_ids(caller);
            let t0 = pre.owned.owned_ids(to);
            assert forall|j: int, k: int| 0 <= j < k < s0.len() implies s0[j] != s0[k] by {
                assert(pre.owned.owned_ids(caller)[j] != pre.owned.owned_ids(caller)[k]);
            }
            let i = choose|i: int|
                0 <= i < s0.len() && #[trigger] s0[i] == idv && mid.owned_ids(caller)
                    == swap_removed(s0, i);
            crate::owner_index::lemma_swap_removed_facts(s0, i);
            let s1 = swap_removed(s0, i);
            assert(on.owned_ids(caller) == s1);
            assert(on.owned_ids(to) == t0.push(idv));
            // the transferred identity was never in the destination list
            assert forall|j: int| 0 <= j < t0.len() implies t0[j] != idv by {
                assert(pre.store.at(pre.owned.owned_ids(to)[j]).owner == to);
                assert(pre.store.at(idv).owner == caller);
            }
            assert forall|o: u64, j: int, k: int|
                0 <= j < k < on.owned_ids(o).len() implies #[trigger] on.owned_ids(o)[j]
                != #[trigger] on.owned_ids(o)[k] by {
                if o == caller {
                    assert(s1[j] != s1[k]);
                } else if o == to {
                    if k == t0.len() as int {
                        assert(on.owned_ids(to)[j] == t0[j]);
                        assert(on.owned_ids(to)[k] == idv);
                    } else {
                        assert(pre.owned.owned_ids(to)[j] != pre.owned.owned_ids(to)[k]);
                    }
                } else {
                    assert(on.owned_ids(o) == pre.owned.owned_ids(o));
                    assert(pre.owned.owned_ids(o)[j] != pre.owned.owned_ids(o)[k]);
                }
            }
            assert forall|o: u64, j: int| 0 <= j < on.owned_ids(o).len() implies sn.has(
                #[trigger] on.owned_ids(o)[j],
            ) && sn.at(on.owned_ids(o)[j]).owner == o by {
                if o == caller {
                    let x = s1[j];
                    assert(s0.contains(x) && x != idv);
                    let w = choose|w: int| 0 <= w < s0.len() && s0[w] == x;
                    assert(pre.store.has(pre.owned.owned_ids(caller)[w]));
                    assert(pre.store.at(x).owner == caller);
                    assert(sn.at(x) == pre.store.at(x));
                } else if o == to && j == t0.len() as int {
                    assert(on.owned_ids(to)[j] == idv);
                    assert(sn.at(idv).owner == to);
                } else {
                    let x = on.owned_ids(o)[j];
                    assert(x == pre.owned.owned_ids(o)[j]);
                    assert(pre.store.has(pre.owned.owned_ids(o)[j]));
                    assert(pre.store.at(x).owner == o);
                    assert(x != idv);
                    assert(sn.at(x) == pre.store.at(x));
                }
            }
            assert forall|x: Seq<u8>| #[trigger] sn.has(x) implies on.owned_ids(
                sn.at(x).owner,
            ).contains(x) by {
                if x == idv {
                    assert(sn.at(idv).owner == to);
                    assert(on.owned_ids(to)[t0.len() as int] == idv);
                } else {
                    assert(pre.store.has(x));
                    assert(sn.at(x) == pre.store.at(x));
                    let o = pre.store.at(x).owner;
                    assert(pre.owned.owned_ids(o).contains(x));
                    let w = choose|w: int|
                        0 <= w < pre.owned.owned_ids(o).len() && pre.owned.owned_ids(o)[w] == x;
                    if o == caller {
                        assert(s0.contains(x));
                        assert(s1.contains(x));
                    } else if o == to {
                        assert(on.owned_ids(to)[w] == x);
                        assert(on.owned_ids(to).contains(x));
                    } else {
                        assert(on.owned_ids(o) == pre.owned.owned_ids(o));
                        assert(on.owned_ids(o)[w] == x);
                    }
                }
            }
            assert(self.events_view() =~= pre.events_view().push(
                EventView::Transferred { from: caller, to, identity: idv },
            ));
            assert(sn.at(idv) =~= AssetView { owner: to, ..pre.store.at(idv) });
        }
        Ok(())
    }
}

} // verus!
