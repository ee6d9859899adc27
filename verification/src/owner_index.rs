//! The per-owner bounded index of held asset identities.
//!
//! Each owner maps to an ordered sequence of identities of length at most
//! the configured capacity.  Order carries no meaning to holders: removal
//! swaps the last element into the vacated slot, so the order after a
//! removal is not preserved.  An owner without an entry holds nothing;
//! entries are created lazily and never deleted.

use vstd::prelude::*;

use crate::bytes::{bytes_eq, clone_bytes};
use crate::errors::Error;

verus! {

/// One owner's entry: the identities it currently holds.
pub struct OwnerEntry {
    pub owner: u64,
    pub held: Vec<Vec<u8>>,
}

/// A mapping from owner to the bounded sequence of identities held.
pub struct OwnerIndex {
    pub capacity: usize,
    pub entries: Vec<OwnerEntry>,
}

/// The mathematical contents of one entry.
pub open spec fn ids_of(e: OwnerEntry) -> Seq<Seq<u8>> {
    e.held@.map_values(|v: Vec<u8>| v@)
}

/// The result of removing position `i` of `s` by swapping the last
/// element into its place and shrinking by one.
pub open spec fn swap_removed(s: Seq<Seq<u8>>, i: int) -> Seq<Seq<u8>> {
    s.update(i, s.last()).drop_last()
}

/// What a swap-removal does to a duplicate-free sequence: the result is
/// one element shorter, keeps exactly the other elements, stays
/// duplicate-free — and may reorder what remains.
pub proof fn lemma_swap_removed_facts(s: Seq<Seq<u8>>, i: int)
    requires
        0 <= i < s.len(),
        forall|j: int, k: int| 0 <= j < k < s.len() ==> s[j] != s[k],
    ensures
        swap_removed(s, i).len() == s.len() - 1,
        forall|m: int|
            0 <= m < swap_removed(s, i).len() ==> s.contains(#[trigger] swap_removed(s, i)[m])
                && swap_removed(s, i)[m] != s[i],
        forall|a: int, b: int|
            0 <= a < b < swap_removed(s, i).len() ==> swap_removed(s, i)[a] != swap_removed(
                s,
                i,
            )[b],
        forall|x: Seq<u8>| #[trigger] swap_removed(s, i).contains(x) <==> (s.contains(x) && x != s[i]),
{
    let t = swap_removed(s, i);
    let n = s.len() as int;
    assert forall|m: int| 0 <= m < t.len() implies s.contains(#[trigger] t[m]) && t[m] != s[i] by {
        if m == i {
            assert(t[m] == s[n - 1]);
            assert(s.contains(s[n - 1]));
            assert(i < n - 1);
            assert(s[i] != s[n - 1]);
        } else {
            assert(t[m] == s[m]);
            assert(s.contains(s[m]));
            if m < i {
                assert(s[m] != s[i]);
            } else {
                assert(s[i] != s[m]);
            }
        }
    }
    assert forall|a: int, b: int| 0 <= a < b < t.len() implies t[a] != t[b] by {
        if a == i {
            assert(t[a] == s[n - 1] && t[b] == s[b]);
            assert(s[b] != s[n - 1]);
        } else if b == i {
            assert(t[b] == s[n - 1] && t[a] == s[a]);
            assert(s[a] != s[n - 1]);
        } else {
            assert(t[a] == s[a] && t[b] == s[b]);
        }
    }
    assert forall|x: Seq<u8>| #[trigger] t.contains(x) <==> (s.contains(x) && x != s[i]) by {
        if t.contains(x) {
            let m = choose|m: int| 0 <= m < t.len() && t[m] == x;
            assert(s.contains(t[m]) && t[m] != s[i]);
        }
        if s.contains(x) && x != s[i] {
            let w = choose|w: int| 0 <= w < s.len() && s[w] == x;
            assert(w != i);
            if w < n - 1 {
                assert(t[w] == s[w]);
                assert(t.contains(t[w]));
            } else {
                assert(i < n - 1);
                assert(t[i] == s[n - 1]);
                assert(t.contains(t[i]));
            }
        }
    }
}

impl OwnerIndex {
    /// Well-formedness: entries name pairwise distinct owners and none
    /// holds more than the capacity.
    pub open spec fn wf(self) -> bool {
        &&& forall|i: int, j: int|
            0 <= i < j < self.entries@.len() ==> (#[trigger] self.entries@[i]).owner != (
            #[trigger] self.entries@[j]).owner
        &&& forall|i: int|
            0 <= i < self.entries@.len() ==> ids_of(#[trigger] self.entries@[i]).len()
                <= self.capacity
    }

    /// Whether an entry for this owner exists.
    pub open spec fn has_entry(self, o: u64) -> bool {
        exists|i: int| 0 <= i < self.entries@.len() && (#[trigger] self.entries@[i]).owner == o
    }

    /// The position of this owner's entry; meaningful only when `wf()`
    /// holds and `has_entry(o)` is true.
    pub open spec fn entry_at(self, o: u64) -> int {
        choose|i: int| 0 <= i < self.entries@.len() && (#[trigger] self.entries@[i]).owner == o
    }

    /// The identities this owner holds: the contents of its entry, or the
    /// empty sequence when it has none.
    pub open spec fn owned_ids(self, o: u64) -> Seq<Seq<u8>> {
        if self.has_entry(o) {
            ids_of(self.entries@[self.entry_at(o)])
        } else {
            Seq::empty()
        }
    }

    /// In a well-formed index, the entry at a known position is the one
    /// its owner resolves to.
    pub proof fn lemma_entry_at(self, i: int)
        requires
            self.wf(),
            0 <= i < self.entries@.len(),
        ensures
            self.has_entry(self.entries@[i].owner),
            self.entry_at(self.entries@[i].owner) == i,
            self.owned_ids(self.entries@[i].owner) == ids_of(self.entries@[i]),
    {
        assert(self.has_entry(self.entries@[i].owner));
        let j = self.entry_at(self.entries@[i].owner);
        if i < j {
            assert(self.entries@[i].owner != self.entries@[j].owner);
        } else if j < i {
            assert(self.entries@[j].owner != self.entries@[i].owner);
        }
    }

    /// An empty index with the given capacity.
    pub fn new(capacity: usize) -> (r: OwnerIndex)
        ensures
            r.wf(),
            r.capacity == capacity,
            forall|o: u64| #[trigger] r.owned_ids(o) == Seq::<Seq<u8>>::empty(),
    {
        let r = OwnerIndex { capacity, entries: Vec::new() };
        proof {
            assert forall|o: u64| #[trigger] r.owned_ids(o) == Seq::<Seq<u8>>::empty() by {
                assert(!r.has_entry(o));
            }
        }
        r
    }

    /// Finds the position of this owner's entry, if it has one.
    fn find_entry(&self, o: u64) -> (r: Option<usize>)
        requires
            self.wf(),
        ensures
            match r {
                Some(i) => {
                    &&& i < self.entries@.len()
                    &&& self.entries@[i as int].owner == o
                    &&& self.has_entry(o)
                    &&& self.entry_at(o) == i as int
                },
                None => !self.has_entry(o),
            },
    {
        let mut i: usize = 0;
        while i < self.entries.len()
            invariant
                self.wf(),
                i <= self.entries@.len(),
                forall|k: int| 0 <= k < i ==> (#[trigger] self.entries@[k]).owner != o,
            decreases self.entries@.len() - i,
        {
            if self.entries[i].owner == o {
                proof {
                    self.lemma_entry_at(i as int);
                }
                return Some(i);
            }
            i += 1;
        }
        None
    }

    /// The identities this owner currently holds, as a fresh copy.
    pub fn list(&self, o: u64) -> (r: Vec<Vec<u8>>)
        requires
            self.wf(),
        ensures
            r@.map_values(|v: Vec<u8>| v@) == self.owned_ids(o),
    {
        match self.find_entry(o) {
            None => {
                let r: Vec<Vec<u8>> = Vec::new();
                proof {
                    assert(r@.map_values(|v: Vec<u8>| v@) =~= self.owned_ids(o));
                }
                r
            },
            Some(i) => {
                let held = &self.entries[i].held;
                let mut r: Vec<Vec<u8>> = Vec::new();
                let mut k: usize = 0;
                while k < held.len()
                    invariant
                        k <= held@.len(),
                        r@.len() == k,
                        forall|m: int| 0 <= m < k ==> (#[trigger] r@[m])@ == held@[m]@,
                    decreases held@.len() - k,
                {
                    r.push(clone_bytes(&held[k]));
                    k += 1;
                }
                proof {
                    assert(r@.map_values(|v: Vec<u8>| v@) =~= ids_of(self.entries@[i as int]));
                }
                r
            },
        }
    }

    /// How many identities this owner currently holds.
    pub fn count(&self, o: u64) -> (n: usize)
        requires
            self.wf(),
        ensures
            n == self.owned_ids(o).len(),
    {
        match self.find_entry(o) {
            None => {
                proof {
                    assert(self.owned_ids(o) =~= Seq::<Seq<u8>>::empty());
                }
                0
            },
            Some(i) => self.entries[i].held.len(),
        }
    }

    /// Appends an identity to this owner's holdings, rejecting the append
    /// when the owner is already at capacity.  On failure nothing is
    /// mutated, not even partially.
    pub fn try_append(&mut self, o: u64, id: Vec<u8>) -> (r: Result<(), Error>)
        requires
            old(self).wf(),
        ensures
            final(self).wf(),
            final(self).capacity == old(self).capacity,
            match r {
                Ok(()) => {
                    &&& old(self).owned_ids(o).len() < old(self).capacity
                    &&& final(self).owned_ids(o) == old(self).owned_ids(o).push(id@)
                    &&& forall|x: u64|
                        x != o ==> #[trigger] final(self).owned_ids(x) == old(self).owned_ids(x)
                },
                Err(e) => {
                    &&& e == Error::CapacityExceeded
                    &&& old(self).owned_ids(o).len() >= old(self).capacity
                    &&& *final(self) == *old(self)
                },
            },
    {
        let ghost pre = *self;
        match self.find_entry(o) {
            None => {
                if self.capacity == 0 {
                    return Err(Error::CapacityExceeded);
                }
                let mut held: Vec<Vec<u8>> = Vec::new();
                held.push(id);
                let entry = OwnerEntry { owner: o, held };
                self.entries.push(entry);
                proof {
                    let n = pre.entries@.len() as int;
                    assert(self.entries@[n] == entry);
                    assert forall|i: int, j: int| 0 <= i < j < self.entries@.len() implies (
                    #[trigger] self.entries@[i]).owner != (#[trigger] self.entries@[j]).owner by {
                        if j < n {
                            assert(pre.entries@[i] == self.entries@[i]);
                            assert(pre.entries@[j] == self.entries@[j]);
                        } else {
                            assert(self.entries@[i] == pre.entries@[i]);
                            assert(!pre.has_entry(o));
                        }
                    }
                    assert forall|i: int| 0 <= i < self.entries@.len() implies ids_of(
                        #[trigger] self.entries@[i],
                    ).len() <= self.capacity by {
                        if i < n {
                            assert(pre.entries@[i] == self.entries@[i]);
                        } else {
                            assert(ids_of(entry) =~= Seq::<Seq<u8>>::empty().push(id@));
                        }
                    }
                    self.lemma_entry_at(n);
                    assert(ids_of(entry) =~= pre.owned_ids(o).push(id@));
                    assert forall|x: u64| x != o implies #[trigger] self.owned_ids(x)
                        == pre.owned_ids(x) by {
                        self.lemma_same_others(pre, x, n);
                    }
                }
                Ok(())
            },
            Some(i) => {
                if self.entries[i].held.len() >= self.capacity {
                    proof {
                        pre.lemma_entry_at(i as int);
                    }
                    return Err(Error::CapacityExceeded);
                }
                self.entries[i].held.push(id);
                proof {
                    let n = i as int;
                    pre.lemma_entry_at(n);
                    assert(self.entries@ == pre.entries@.update(
                        n,
                        OwnerEntry { owner: o, held: self.entries@[n].held },
                    ));
                    assert forall|a: int, b: int| 0 <= a < b < self.entries@.len() implies (
                    #[trigger] self.entries@[a]).owner != (#[trigger] self.entries@[b]).owner by {
                        assert(pre.entries@[a].owner != pre.entries@[b].owner);
                        assert(self.entries@[a].owner == pre.entries@[a].owner);
                        assert(self.entries@[b].owner == pre.entries@[b].owner);
                    }
                    assert(ids_of(self.entries@[n]) =~= ids_of(pre.entries@[n]).push(id@));
                    assert forall|a: int| 0 <= a < self.entries@.len() implies ids_of(
                        #[trigger] self.entries@[a],
                    ).len() <= self.capacity by {
                        if a != n {
                            assert(self.entries@[a] == pre.entries@[a]);
                        }
                    }
                    self.lemma_entry_at(n);
                    assert forall|x: u64| x != o implies #[trigger] self.owned_ids(x)
                        == pre.owned_ids(x) by {
                        self.lemma_same_others(pre, x, n);
                    }
                }
                Ok(())
            },
        }
    }

    /// When only the entry at position `n` changed, and it kept its
    /// owner, every other owner's holdings read the same as before.
    proof fn lemma_same_others(self, pre: OwnerIndex, x: u64, n: int)
        requires
            self.wf(),
            pre.wf(),
            0 <= n < self.entries@.len(),
            pre.entries@.len() == self.entries@.len() || (pre.entries@.len() + 1
                == self.entries@.len() && n == pre.entries@.len()),
            n < pre.entries@.len() ==> pre.entries@[n].owner == self.entries@[n].owner,
            forall|k: int|
                0 <= k < pre.entries@.len() && k != n ==> pre.entries@[k] == #[trigger] self.entries@[k],
            x != self.entries@[n].owner,
        ensures
            self.owned_ids(x) == pre.owned_ids(x),
    {
        if pre.has_entry(x) {
            let k = pre.entry_at(x);
            assert(pre.entries@[k].owner == x);
            assert(k != n);
            assert(self.entries@[k].owner == x);
            pre.lemma_entry_at(k);
            self.lemma_entry_at(k);
        } else {
            if self.has_entry(x) {
                let k = self.entry_at(x);
                assert(self.entries@[k].owner == x);
                assert(k != n);
                assert(k < pre.entries@.len());
                assert(pre.entries@[k].owner == x);
                assert(false);
            }
        }
    }

    /// Removes an identity from this owner's holdings by swapping the
    /// last element into its place.  Fails with `AssetNotFound`, mutating
    /// nothing, when the owner does not hold the identity.
    pub fn remove(&mut self, o: u64, id: &Vec<u8>) -> (r: Result<(), Error>)
        requires
            old(self).wf(),
        ensures
            final(self).wf(),
            final(self).capacity == old(self).capacity,
            match r {
                Ok(()) => {
                    &&& exists|i: int|
                        0 <= i < old(self).owned_ids(o).len() && #[trigger] old(self).owned_ids(o)[i]
                            == id@ && final(self).owned_ids(o) == swap_removed(
                            old(self).owned_ids(o),
                            i,
                        )
                    &&& final(self).owned_ids(o).len() + 1 == old(self).owned_ids(o).len()
                    &&& forall|x: u64|
                        x != o ==> #[trigger] final(self).owned_ids(x) == old(self).owned_ids(x)
                },
                Err(e) => {
                    &&& e == Error::AssetNotFound
                    &&& !old(self).owned_ids(o).contains(id@)
                    &&& *final(self) == *old(self)
                },
            },
    {
        let ghost pre = *self;
        match self.find_entry(o) {
            None => {
                proof {
                    assert(pre.owned_ids(o) =~= Seq::<Seq<u8>>::empty());
                }
                Err(Error::AssetNotFound)
            },
            Some(ei) => {
                proof {
                    pre.lemma_entry_at(ei as int);
                }
                let held_len = self.entries[ei].held.len();
                let mut k: usize = 0;
                while k < held_len
                    invariant
                        *self == pre,
                        pre == *old(self),
                        pre.wf(),
                        ei < pre.entries@.len(),
                        pre.entries@[ei as int].owner == o,
                        pre.entry_at(o) == ei as int,
                        pre.has_entry(o),
                        held_len == pre.entries@[ei as int].held@.len(),
                        k <= held_len,
                        forall|m: int|
                            0 <= m < k ==> (#[trigger] pre.entries@[ei as int].held@[m])@ != id@,
                    decreases held_len - k,
                {
                    if bytes_eq(&self.entries[ei].held[k], id) {
                        let last = self.entries[ei].held.swap_remove(k);
                        proof {
                            let n = ei as int;
                            assert(self.entries@ == pre.entries@.update(
                                n,
                                OwnerEntry { owner: o, held: self.entries@[n].held },
                            ));
                            assert forall|a: int, b: int| 0 <= a < b < self.entries@.len() implies (
                            #[trigger] self.entries@[a]).owner != (
                            #[trigger] self.entries@[b]).owner by {
                                assert(pre.entries@[a].owner != pre.entries@[b].owner);
                                assert(self.entries@[a].owner == pre.entries@[a].owner);
                                assert(self.entries@[b].owner == pre.entries@[b].owner);
                            }
                            assert(ids_of(self.entries@[n]) =~= swap_removed(
                                ids_of(pre.entries@[n]),
                                k as int,
                            ));
                            assert forall|a: int| 0 <= a < self.entries@.len() implies ids_of(
                                #[trigger] self.entries@[a],
                            ).len() <= self.capacity by {
                                if a != n {
                                    assert(self.entries@[a] == pre.entries@[a]);
                                } else {
                                    assert(ids_of(pre.entries@[n]).len() <= self.capacity);
                                }
                            }
                            self.lemma_entry_at(n);
                            assert(pre.owned_ids(o)[k as int] == id@);
                            assert forall|x: u64| x != o implies #[trigger] self.owned_ids(x)
                                == pre.owned_ids(x) by {
                                self.lemma_same_others(pre, x, n);
                            }
                        }
                        return Ok(());
                    }
                    k += 1;
                }
                proof {
                    assert forall|m: int| 0 <= m < pre.owned_ids(o).len() implies #[trigger] pre.owned_ids(
                        o,
                    )[m] != id@ by {
                        assert((pre.entries@[ei as int].held@[m])@ != id@);
                    }
                    assert(!pre.owned_ids(o).contains(id@));
                }
                Err(Error::AssetNotFound)
            },
        }
    }
}

} // verus!
