use wnfs::blockstore::{Link, MemoryBlockStore};
use wnfs::referenceable::ReferenceableStore;

#[test]
fn link_value_can_be_resolved() {
    let mut store = MemoryBlockStore::new();
    let cid = store.put_value(&256u64).unwrap();
    let mut link = Link::<u64>::from_cid(cid);

    let value = *link.resolve_value(&mut store).unwrap();
    assert_eq!(value, 256);
    assert!(link.has_value());
    assert_eq!(store.fetch_count(), 1);

    // Resolving again performs no further fetch and yields the same value.
    let again = *link.resolve_value(&mut store).unwrap();
    assert_eq!(again, 256);
    assert_eq!(store.fetch_count(), 1);
}

#[test]
fn link_cid_can_be_resolved() {
    let mut store = MemoryBlockStore::new();
    let mut link: Link<u64> = Link::from(12_000_500);

    let cid = link.resolve_cid(&mut store).unwrap().clone();
    let value: u64 = store.get_value(&cid).unwrap();
    assert_eq!(value, 12_000_500);
    assert!(link.has_cid());
}

#[test]
fn links_from_same_cid_compare_equal_without_resolution() {
    let mut store = MemoryBlockStore::new();
    let cid = store.put_value(&77u64).unwrap();
    let a = Link::<u64>::from_cid(cid.clone());
    let b = Link::<u64>::from_cid(cid);
    assert!(a == b);
    assert_eq!(store.fetch_count(), 0);
}

#[test]
fn links_with_equal_values_compare_equal() {
    let a: Link<u64> = Link::from(9);
    let b: Link<u64> = Link::from(9);
    let c: Link<u64> = Link::from(10);
    assert!(a == b);
    assert!(!(a == c));
}

#[test]
fn deep_eq_is_correct_for_unresolved_equal_content() {
    let mut store = MemoryBlockStore::new();
    let mut a: Link<u64> = Link::from(41);
    let mut b: Link<u64> = Link::from(41);
    let mut c: Link<u64> = Link::from(42);
    assert!(a.deep_eq(&mut b, &mut store).unwrap());
    assert!(!a.deep_eq(&mut c, &mut store).unwrap());
}

#[test]
fn cloning_a_link_preserves_its_shape() {
    let mut store = MemoryBlockStore::new();
    let cid = store.put_value(&64u64).unwrap();
    let original = Link::<u64>::from_cid(cid);
    let mut copy = original.clone();
    assert!(copy.has_cid());
    assert!(!copy.has_value());
    assert_eq!(*copy.resolve_value(&mut store).unwrap(), 64);
}

#[test]
fn get_owned_value_returns_cached_or_fetched() {
    let mut store = MemoryBlockStore::new();
    let cid = store.put_value(&5u64).unwrap();
    let link = Link::<u64>::from_cid(cid);
    assert_eq!(link.get_owned_value(&mut store).unwrap(), 5);

    let owned: Link<u64> = Link::from(6);
    assert_eq!(owned.get_owned_value(&mut store).unwrap(), 6);
}
