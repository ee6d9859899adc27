use asset_registry::asset::Gender;
use asset_registry::errors::Error;
use asset_registry::identity::generate;
use asset_registry::registry::{Event, RegistryEngine};
use asset_registry::store::AssetStore;

const ALICE: u64 = 1;
const BOB: u64 = 2;
const CHARLIE: u64 = 3;

fn holds(list: &Vec<Vec<u8>>, id: &Vec<u8>) -> bool {
    list.iter().any(|held| held == id)
}

#[test]
fn create_returns_nonce_prefixed_identity() {
    let mut engine = RegistryEngine::new(10);
    let id = engine.create_asset(ALICE, &vec![7u8, 8u8], 1000).unwrap();
    assert_eq!(id, vec![0u8, 0, 0, 0, 7, 8]);
    let second = engine.create_asset(ALICE, &vec![9u8], 1001).unwrap();
    assert_eq!(second, vec![1u8, 0, 0, 0, 9]);
}

#[test]
fn create_fills_every_field() {
    let mut engine = RegistryEngine::new(10);
    let id = engine.create_asset(ALICE, &vec![7u8, 8u8], 1234).unwrap();
    let asset = engine.get_asset(&id).unwrap();
    assert_eq!(asset.identity, id);
    assert_eq!(asset.owner, ALICE);
    assert_eq!(asset.price, 0);
    assert_eq!(asset.created_at, 1234);
    // six bytes: even length selects Male
    assert_eq!(asset.attribute, Gender::Male);
    let odd = engine.create_asset(ALICE, &vec![9u8], 1235).unwrap();
    assert_eq!(engine.get_asset(&odd).unwrap().attribute, Gender::Female);
}

#[test]
fn create_records_event_after_commit() {
    let mut engine = RegistryEngine::new(10);
    let id = engine.create_asset(ALICE, &vec![5u8], 1).unwrap();
    assert_eq!(engine.events.len(), 1);
    assert_eq!(
        engine.events[0],
        Event::Created { identity: id, owner: ALICE }
    );
}

#[test]
fn capacity_bounds_creation() {
    let mut engine = RegistryEngine::new(2);
    let first = engine.create_asset(ALICE, &vec![1u8], 1).unwrap();
    assert_eq!(engine.list_owned(ALICE).len(), 1);
    let second = engine.create_asset(ALICE, &vec![2u8], 2).unwrap();
    assert_eq!(engine.list_owned(ALICE).len(), 2);
    let r = engine.create_asset(ALICE, &vec![3u8], 3);
    assert_eq!(r, Err(Error::CapacityExceeded));
    let owned = engine.list_owned(ALICE);
    assert_eq!(owned.len(), 2);
    assert!(holds(&owned, &first));
    assert!(holds(&owned, &second));
    assert_eq!(engine.events.len(), 2);
}

#[test]
fn nonce_advances_even_on_failed_create() {
    let mut engine = RegistryEngine::new(1);
    engine.create_asset(ALICE, &vec![1u8], 1).unwrap();
    assert_eq!(engine.nonce, 1);
    let r = engine.create_asset(ALICE, &vec![2u8], 2);
    assert_eq!(r, Err(Error::CapacityExceeded));
    assert_eq!(engine.nonce, 2);
    // everything but the nonce is untouched by the abort
    assert_eq!(engine.next_id, 1);
    assert_eq!(engine.events.len(), 1);
    assert_eq!(engine.list_owned(ALICE).len(), 1);
}

#[test]
fn counter_exhaustion_aborts_create() {
    let mut engine = RegistryEngine::new(5);
    engine.next_id = u32::MAX;
    let r = engine.create_asset(ALICE, &vec![1u8], 1);
    assert_eq!(r, Err(Error::CounterOverflow));
    assert_eq!(engine.next_id, u32::MAX);
    assert_eq!(engine.list_owned(ALICE).len(), 0);
    assert_eq!(engine.events.len(), 0);
    assert_eq!(engine.nonce, 1);
}

#[test]
fn transfer_moves_ownership() {
    let mut engine = RegistryEngine::new(5);
    let x = engine.create_asset(ALICE, &vec![1u8], 1).unwrap();
    engine.transfer(ALICE, BOB, &x).unwrap();
    assert_eq!(engine.get_asset(&x).unwrap().owner, BOB);
    assert!(!holds(&engine.list_owned(ALICE), &x));
    assert!(holds(&engine.list_owned(BOB), &x));
    assert_eq!(
        engine.events[1],
        Event::Transferred { from: ALICE, to: BOB, identity: x }
    );
}

#[test]
fn transfer_keeps_other_fields() {
    let mut engine = RegistryEngine::new(5);
    let x = engine.create_asset(ALICE, &vec![1u8, 2u8], 77).unwrap();
    let before = engine.get_asset(&x).unwrap();
    engine.transfer(ALICE, BOB, &x).unwrap();
    let after = engine.get_asset(&x).unwrap();
    assert_eq!(after.identity, before.identity);
    assert_eq!(after.attribute, before.attribute);
    assert_eq!(after.price, before.price);
    assert_eq!(after.created_at, before.created_at);
}

#[test]
fn transfer_by_non_owner_changes_nothing() {
    let mut engine = RegistryEngine::new(5);
    let x = engine.create_asset(ALICE, &vec![1u8], 1).unwrap();
    let r = engine.transfer(BOB, CHARLIE, &x);
    assert_eq!(r, Err(Error::NotOwner));
    assert_eq!(engine.get_asset(&x).unwrap().owner, ALICE);
    assert!(holds(&engine.list_owned(ALICE), &x));
    assert_eq!(engine.list_owned(CHARLIE).len(), 0);
    assert_eq!(engine.events.len(), 1);
}

#[test]
fn self_transfer_is_rejected() {
    let mut engine = RegistryEngine::new(5);
    let x = engine.create_asset(ALICE, &vec![1u8], 1).unwrap();
    let r = engine.transfer(ALICE, ALICE, &x);
    assert_eq!(r, Err(Error::SelfTransfer));
    assert_eq!(engine.get_asset(&x).unwrap().owner, ALICE);
    assert!(holds(&engine.list_owned(ALICE), &x));
    assert_eq!(engine.events.len(), 1);
}

#[test]
fn transfer_of_unknown_identity_fails() {
    let mut engine = RegistryEngine::new(5);
    let ghost_id = vec![9u8, 9, 9];
    let r = engine.transfer(ALICE, BOB, &ghost_id);
    assert_eq!(r, Err(Error::AssetNotFound));
    assert_eq!(engine.get_asset(&ghost_id), Err(Error::AssetNotFound));
    assert_eq!(engine.events.len(), 0);
}

#[test]
fn transfer_into_full_owner_is_rejected_atomically() {
    let mut engine = RegistryEngine::new(1);
    let x = engine.create_asset(ALICE, &vec![1u8], 1).unwrap();
    let y = engine.create_asset(BOB, &vec![2u8], 2).unwrap();
    let r = engine.transfer(ALICE, BOB, &x);
    assert_eq!(r, Err(Error::CapacityExceeded));
    assert_eq!(engine.get_asset(&x).unwrap().owner, ALICE);
    assert!(holds(&engine.list_owned(ALICE), &x));
    let bobs = engine.list_owned(BOB);
    assert_eq!(bobs.len(), 1);
    assert!(holds(&bobs, &y));
    assert_eq!(engine.events.len(), 2);
}

#[test]
fn removal_keeps_membership_not_order() {
    let mut engine = RegistryEngine::new(3);
    let first = engine.create_asset(ALICE, &vec![1u8], 1).unwrap();
    let middle = engine.create_asset(ALICE, &vec![2u8], 2).unwrap();
    let last = engine.create_asset(ALICE, &vec![3u8], 3).unwrap();
    engine.transfer(ALICE, BOB, &first).unwrap();
    let owned = engine.list_owned(ALICE);
    assert_eq!(owned.len(), 2);
    assert!(holds(&owned, &middle));
    assert!(holds(&owned, &last));
    assert!(!holds(&owned, &first));
    // the swap moved the last identity into the vacated first slot
    assert_eq!(owned[0], last);
    assert_eq!(owned[1], middle);
}

#[test]
fn listing_resolves_to_owning_records() {
    let mut engine = RegistryEngine::new(4);
    engine.create_asset(ALICE, &vec![1u8], 1).unwrap();
    engine.create_asset(BOB, &vec![2u8], 2).unwrap();
    engine.create_asset(ALICE, &vec![3u8], 3).unwrap();
    for owner in [ALICE, BOB, CHARLIE] {
        for id in engine.list_owned(owner) {
            assert_eq!(engine.get_asset(&id).unwrap().owner, owner);
        }
    }
}

#[test]
fn unknown_owner_holds_nothing() {
    let engine = RegistryEngine::new(4);
    assert_eq!(engine.list_owned(CHARLIE).len(), 0);
}

#[test]
fn store_rejects_duplicate_identity() {
    let mut engine = RegistryEngine::new(4);
    let id = engine.create_asset(ALICE, &vec![1u8], 1).unwrap();
    let copy = engine.get_asset(&id).unwrap();
    let r = engine.store.insert(copy);
    assert_eq!(r, Err(Error::DuplicateIdentity));
}

#[test]
fn store_lookup_misses_cleanly() {
    let store = AssetStore::new();
    assert!(!store.contains(&vec![1u8, 2u8]));
    assert!(store.get(&vec![1u8, 2u8]).is_none());
}

#[test]
fn identity_generation_is_pure() {
    let seed = vec![42u8, 43u8];
    assert_eq!(generate(0, &seed), vec![0u8, 0, 0, 0, 42, 43]);
    assert_eq!(generate(0, &seed), generate(0, &seed));
    assert_eq!(generate(258, &seed), vec![2u8, 1, 0, 0, 42, 43]);
    assert_eq!(generate(5, &Vec::new()), vec![5u8, 0, 0, 0]);
}

#[test]
fn emptied_owner_holds_nothing_and_can_receive_again() {
    let mut engine = RegistryEngine::new(2);
    let x = engine.create_asset(ALICE, &vec![1u8], 1).unwrap();
    engine.transfer(ALICE, BOB, &x).unwrap();
    assert_eq!(engine.list_owned(ALICE).len(), 0);
    let y = engine.create_asset(ALICE, &vec![2u8], 2).unwrap();
    assert!(holds(&engine.list_owned(ALICE), &y));
    engine.transfer(BOB, ALICE, &x).unwrap();
    assert_eq!(engine.list_owned(ALICE).len(), 2);
    assert_eq!(engine.list_owned(BOB).len(), 0);
}

#[test]
fn zero_capacity_rejects_every_create() {
    let mut engine = RegistryEngine::new(0);
    let r = engine.create_asset(ALICE, &vec![1u8], 1);
    assert_eq!(r, Err(Error::CapacityExceeded));
    assert_eq!(engine.list_owned(ALICE).len(), 0);
}

#[test]
fn identities_stay_unique_across_creations() {
    let mut engine = RegistryEngine::new(100);
    let mut seen: Vec<Vec<u8>> = Vec::new();
    for round in 0..20u8 {
        // a deliberately colliding seed on every round
        let id = engine.create_asset(u64::from(round % 3), &vec![7u8], u64::from(round)).unwrap();
        assert!(!seen.contains(&id));
        seen.push(id);
    }
}
