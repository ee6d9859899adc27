//! The keyed store of asset records.
//!
//! The store enforces identity uniqueness on insert; every other
//! operation keys its work by an identity.

use vstd::prelude::*;

use crate::asset::{Asset, AssetView};
use crate::bytes::bytes_eq;
use crate::errors::Error;

verus! {

/// A keyed mapping from asset identity to asset record.
pub struct AssetStore {
    pub assets: Vec<Asset>,
}

impl AssetStore {
    /// Well-formedness: no two records share an identity.
    pub open spec fn wf(self) -> bool {
        forall|i: int, j: int|
            0 <= i < j < self.assets@.len() ==> (#[trigger] self.assets@[i]).identity@
                != (#[trigger] self.assets@[j]).identity@
    }

    /// Whether some record carries the given identity.
    pub open spec fn has(self, id: Seq<u8>) -> bool {
        exists|i: int| 0 <= i < self.assets@.len() && (#[trigger] self.assets@[i]).identity@ == id
    }

    /// The record carrying the given identity; meaningful only when
    /// `wf()` holds and `has(id)` is true.
    pub open spec fn at(self, id: Seq<u8>) -> AssetView {
        let i = choose|i: int|
            0 <= i < self.assets@.len() && (#[trigger] self.assets@[i]).identity@ == id;
        self.assets@[i]@
    }

    /// In a well-formed store, the record at a known position is the one
    /// `at` resolves its identity to.
    pub proof fn lemma_at_index(self, i: int)
        requires
            self.wf(),
            0 <= i < self.assets@.len(),
        ensures
            self.has(self.assets@[i].identity@),
            self.at(self.assets@[i].identity@) == self.assets@[i]@,
    {
        assert(self.has(self.assets@[i].identity@));
        let j = choose|j: int|
            0 <= j < self.assets@.len() && (#[trigger] self.assets@[j]).identity@
                == self.assets@[i].identity@;
        if i < j {
            assert(self.assets@[i].identity@ != self.assets@[j].identity@);
        } else if j < i {
            assert(self.assets@[j].identity@ != self.assets@[i].identity@);
        }
    }

    /// An empty store.
    pub fn new() -> (r: AssetStore)
        ensures
            r.wf(),
            r.assets@.len() == 0,
            forall|x: Seq<u8>| !r.has(x),
    {
        AssetStore { assets: Vec::new() }
    }

    /// Whether a record with this identity is present.
    pub fn contains(&self, id: &Vec<u8>) -> (r: bool)
        ensures
            r == self.has(id@),
    {
        let mut i: usize = 0;
        while i < self.assets.len()
            invariant
                i <= self.assets@.len(),
                forall|k: int| 0 <= k < i ==> (#[trigger] self.assets@[k]).identity@ != id@,
            decreases self.assets@.len() - i,
        {
            if bytes_eq(&self.assets[i].identity, id) {
                return true;
            }
            i += 1;
        }
        false
    }

    /// Looks a record up by identity.
    pub fn get(&self, id: &Vec<u8>) -> (r: Option<&Asset>)
        requires
            self.wf(),
        ensures
            match r {
                Some(a) => self.has(id@) && a@ == self.at(id@),
                None => !self.has(id@),
            },
    {
        let mut i: usize = 0;
        while i < self.assets.len()
            invariant
                self.wf(),
                i <= self.assets@.len(),
                forall|k: int| 0 <= k < i ==> (#[trigger] self.assets@[k]).identity@ != id@,
            decreases self.assets@.len() - i,
        {
            if bytes_eq(&self.assets[i].identity, id) {
                proof {
                    self.lemma_at_index(i as int);
                }
                return Some(&self.assets[i]);
            }
            i += 1;
        }
        None
    }

    /// Inserts a fresh record, rejecting a duplicate identity.  On
    /// success the new record is present and every other identity
    /// resolves exactly as it did before; on failure nothing changes.
    pub fn insert(&mut self, asset: Asset) -> (r: Result<(), Error>)
        requires
            old(self).wf(),
        ensures
            final(self).wf(),
            match r {
                Ok(()) => {
                    &&& !old(self).has(asset.identity@)
                    &&& final(self).assets@ == old(self).assets@.push(asset)
                    &&& final(self).has(asset.identity@)
                    &&& final(self).at(asset.identity@) == asset@
                    &&& forall|x: Seq<u8>|
                        x != asset.identity@ ==> #[trigger] final(self).has(x) == old(self).has(x)
                    &&& forall|x: Seq<u8>|
                        x != asset.identity@ && old(self).has(x) ==> #[trigger] final(self).at(x)
                            == old(self).at(x)
                },
                Err(e) => {
                    &&& e == Error::DuplicateIdentity
                    &&& old(self).has(asset.identity@)
                    &&& *final(self) == *old(self)
                },
            },
    {
        if self.contains(&asset.identity) {
            return Err(Error::DuplicateIdentity);
        }
        let ghost pre = *self;
        self.assets.push(asset);
        proof {
            let n = pre.assets@.len() as int;
            assert(self.assets@[n] == asset);
            assert forall|i: int, j: int| 0 <= i < j < self.assets@.len() implies (
            #[trigger] self.assets@[i]).identity@ != (#[trigger] self.assets@[j]).identity@ by {
                if j < n {
                    assert(pre.assets@[i] == self.assets@[i]);
                    assert(pre.assets@[j] == self.assets@[j]);
                } else {
                    assert(self.assets@[j] == asset);
                    assert(pre.assets@[i] == self.assets@[i]);
                    assert(!pre.has(asset.identity@));
                }
            }
            self.lemma_at_index(n);
            assert forall|x: Seq<u8>| x != asset.identity@ implies #[trigger] self.has(x)
                == pre.has(x) by {
                if pre.has(x) {
                    let i = choose|i: int|
                        0 <= i < pre.assets@.len() && (#[trigger] pre.assets@[i]).identity@ == x;
                    assert(self.assets@[i] == pre.assets@[i]);
                    assert(self.has(x));
                }
                if self.has(x) {
                    let i = choose|i: int|
                        0 <= i < self.assets@.len() && (#[trigger] self.assets@[i]).identity@ == x;
                    assert(i < n);
                    assert(pre.assets@[i] == self.assets@[i]);
                    assert(pre.has(x));
                }
            }
            assert forall|x: Seq<u8>| x != asset.identity@ && pre.has(x) implies #[trigger] self.at(
                x,
            ) == pre.at(x) by {
                let i = choose|i: int|
                    0 <= i < pre.assets@.len() && (#[trigger] pre.assets@[i]).identity@ == x;
                assert(self.assets@[i] == pre.assets@[i]);
                pre.lemma_at_index(i);
                self.lemma_at_index(i);
            }
        }
        Ok(())
    }

    /// Rewrites the owner of the record carrying this identity, leaving
    /// every other field and every other record untouched.
    pub fn set_owner(&mut self, id: &Vec<u8>, new_owner: u64) -> (r: Result<(), Error>)
        requires
            old(self).wf(),
        ensures
            final(self).wf(),
            match r {
                Ok(()) => {
                    &&& old(self).has(id@)
                    &&& final(self).has(id@)
                    &&& final(self).at(id@) == AssetView { owner: new_owner, ..old(self).at(id@) }
                    &&& forall|x: Seq<u8>| #[trigger] final(self).has(x) == old(self).has(x)
                    &&& forall|x: Seq<u8>|
                        x != id@ && old(self).has(x) ==> #[trigger] final(self).at(x) == old(
                            self,
                        ).at(x)
                    &&& final(self).assets@.len() == old(self).assets@.len()
                },
                Err(e) => {
                    &&& e == Error::AssetNotFound
                    &&& !old(self).has(id@)
                    &&& *final(self) == *old(self)
                },
            },
    {
        let ghost pre = *self;
        let mut i: usize = 0;
        while i < self.assets.len()
            invariant
                *self == pre,
                pre == *old(self),
                pre.wf(),
                i <= self.assets@.len(),
                forall|k: int| 0 <= k < i ==> (#[trigger] self.assets@[k]).identity@ != id@,
            decreases self.assets@.len() - i,
        {
            if bytes_eq(&self.assets[i].identity, id) {
                self.assets[i].owner = new_owner;
                proof {
                    let n = i as int;
                    assert(self.assets@ == pre.assets@.update(
                        n,
                        Asset { owner: new_owner, ..pre.assets@[n] },
                    ));
                    assert forall|a: int, b: int| 0 <= a < b < self.assets@.len() implies (
                    #[trigger] self.assets@[a]).identity@ != (
                    #[trigger] self.assets@[b]).identity@ by {
                        assert(pre.assets@[a].identity@ != pre.assets@[b].identity@);
                        assert(self.assets@[a].identity@ == pre.assets@[a].identity@);
                        assert(self.assets@[b].identity@ == pre.assets@[b].identity@);
                    }
                    pre.lemma_at_index(n);
                    self.lemma_at_index(n);
                    assert(self.at(id@) =~= AssetView { owner: new_owner, ..pre.at(id@) });
                    assert forall|x: Seq<u8>| #[trigger] self.has(x) == pre.has(x) by {
                        if pre.has(x) {
                            let k = choose|k: int|
                                0 <= k < pre.assets@.len() && (#[trigger] pre.assets@[k]).identity@
                                    == x;
                            assert(self.assets@[k].identity@ == x);
                        }
                        if self.has(x) {
                            let k = choose|k: int|
                                0 <= k < self.assets@.len() && (
                                #[trigger] self.assets@[k]).identity@ == x;
                            assert(pre.assets@[k].identity@ == x);
                        }
                    }
                    assert forall|x: Seq<u8>| x != id@ && pre.has(x) implies #[trigger] self.at(x)
                        == pre.at(x) by {
                        let k = choose|k: int|
                            0 <= k < pre.assets@.len() && (#[trigger] pre.assets@[k]).identity@
                                == x;
                        assert(k != n);
                        assert(self.assets@[k] == pre.assets@[k]);
                        pre.lemma_at_index(k);
                        self.lemma_at_index(k);
                    }
                }
                return Ok(());
            }
            i += 1;
        }
        Err(Error::AssetNotFound)
    }
}

} // verus!
