//! The asset record and the attribute that is fixed at creation time.

use vstd::prelude::*;

use crate::bytes::clone_bytes;

verus! {

/// The two-variant attribute of an asset.  It is derived deterministically
/// from the parity of the identity's length when the asset is created and
/// never changes afterwards.
#[derive(Clone, Copy, Debug, PartialEq, Eq, Structural)]
pub enum Gender {
    Male,
    Female,
}

/// One asset record.  The identity is an opaque byte string, globally
/// unique in the store, and immutable once created; only the owner is
/// mutated after creation (by a transfer), and only the price is mutable
/// business data besides it.
#[derive(Debug, PartialEq, Eq)]
pub struct Asset {
    pub identity: Vec<u8>,
    pub attribute: Gender,
    pub price: u64,
    pub owner: u64,
    pub created_at: u64,
}

/// The mathematical value of an asset record.
#[verifier::ext_equal]
pub ghost struct AssetView {
    pub identity: Seq<u8>,
    pub attribute: Gender,
    pub price: u64,
    pub owner: u64,
    pub created_at: u64,
}

impl View for Asset {
    type V = AssetView;

    open spec fn view(&self) -> AssetView {
        AssetView {
            identity: self.identity@,
            attribute: self.attribute,
            price: self.price,
            owner: self.owner,
            created_at: self.created_at,
        }
    }
}

/// Copies an asset record.
pub fn clone_asset(a: &Asset) -> (r: Asset)
    ensures
        r@ == a@,
{
    let r = Asset {
        identity: clone_bytes(&a.identity),
        attribute: a.attribute,
        price: a.price,
        owner: a.owner,
        created_at: a.created_at,
    };
    proof {
        assert(r@ =~= a@);
    }
    r
}

/// Which attribute an identity selects: an even length selects `Male`,
/// an odd length selects `Female`.
pub open spec fn gender_of(identity: Seq<u8>) -> Gender {
    if identity.len() % 2 == 0 {
        Gender::Male
    } else {
        Gender::Female
    }
}

/// Derives the attribute of a fresh asset from its identity.
pub fn gender_for(identity: &Vec<u8>) -> (g: Gender)
    ensures
        g == gender_of(identity@),
{
    if identity.len() % 2 == 0 {
        Gender::Male
    } else {
        Gender::Female
    }
}

} // verus!
