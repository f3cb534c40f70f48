//! The byte-keyed key-value store.

use file_registry::error::ContractError;
use file_registry::store::KvStore;

#[test]
fn get_of_a_missing_key_is_none() {
    let store = KvStore::new();
    assert!(store.get(b"absent").is_none());
}

#[test]
fn set_then_get_returns_the_value() {
    let mut store = KvStore::new();
    store.set(b"k".to_vec(), vec![1u8, 2, 3]);
    assert_eq!(store.get(b"k").unwrap(), vec![1u8, 2, 3]);
}

#[test]
fn set_replaces_an_existing_value() {
    let mut store = KvStore::new();
    store.set(b"k".to_vec(), vec![1u8]);
    store.set(b"k".to_vec(), vec![2u8]);
    assert_eq!(store.get(b"k").unwrap(), vec![2u8]);
}

#[test]
fn keys_do_not_interfere() {
    let mut store = KvStore::new();
    store.set(b"k1".to_vec(), vec![1u8]);
    store.set(b"k2".to_vec(), vec![2u8]);
    store.set(b"k1".to_vec(), vec![3u8]);
    assert_eq!(store.get(b"k1").unwrap(), vec![3u8]);
    assert_eq!(store.get(b"k2").unwrap(), vec![2u8]);
    assert!(store.get(b"k").is_none());
}

#[test]
fn error_descriptions_are_distinct() {
    let a = ContractError::AlreadyInitialized.describe();
    let b = ContractError::Uninitialized.describe();
    let c = ContractError::KeyNotFound.describe();
    assert_ne!(a, b);
    assert_ne!(b, c);
    assert_ne!(a, c);
}
