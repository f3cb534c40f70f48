//! End-to-end behaviour of the three registry operations.

use file_registry::contract::{handle, init, query, query_file, try_add_file};
use file_registry::error::ContractError;
use file_registry::msg::{FileAddressResponse, HandleMsg, InitMsg, QueryMsg};
use file_registry::store::KvStore;

fn docs_store() -> KvStore {
    let mut store = KvStore::new();
    init(
        &mut store,
        vec![1u8, 2, 3],
        InitMsg { directory_name: "docs".to_string() },
    )
    .unwrap();
    store
}

#[test]
fn register_then_lookup_returns_address() {
    let mut store = docs_store();
    try_add_file(&mut store, "Qm123".to_string(), "a.txt".to_string()).unwrap();
    let resp = query_file(&store, "a.txt".to_string()).unwrap();
    assert_eq!(resp, FileAddressResponse { ipfs_address: "Qm123".to_string() });
}

#[test]
fn lookup_of_unregistered_name_fails_with_key_not_found() {
    let store = docs_store();
    let err = query_file(&store, "missing.txt".to_string()).unwrap_err();
    assert_eq!(err, ContractError::KeyNotFound);
}

#[test]
fn register_before_init_fails_with_uninitialized() {
    let mut store = KvStore::new();
    let err = try_add_file(&mut store, "Qm123".to_string(), "a.txt".to_string()).unwrap_err();
    assert_eq!(err, ContractError::Uninitialized);
}

#[test]
fn lookup_before_init_fails_with_uninitialized() {
    let store = KvStore::new();
    let err = query_file(&store, "a.txt".to_string()).unwrap_err();
    assert_eq!(err, ContractError::Uninitialized);
}

#[test]
fn repeated_registration_keeps_the_first_address() {
    let mut store = docs_store();
    try_add_file(&mut store, "Qm123".to_string(), "a.txt".to_string()).unwrap();
    try_add_file(&mut store, "QmDIFFERENT".to_string(), "a.txt".to_string()).unwrap();
    let resp = query_file(&store, "a.txt".to_string()).unwrap();
    assert_eq!(resp.ipfs_address, "Qm123");
}

#[test]
fn second_init_fails_with_already_initialized() {
    let mut store = docs_store();
    let err = init(
        &mut store,
        vec![9u8],
        InitMsg { directory_name: "other".to_string() },
    )
    .unwrap_err();
    assert_eq!(err, ContractError::AlreadyInitialized);
    // the original record is untouched
    let st = file_registry::state::config_read(&store).unwrap();
    assert_eq!(st.owner, vec![1u8, 2, 3]);
    assert_eq!(st.directory_name, "docs");
}

#[test]
fn registration_does_not_affect_other_keys() {
    let mut store = docs_store();
    try_add_file(&mut store, "Qm1".to_string(), "a.txt".to_string()).unwrap();
    try_add_file(&mut store, "Qm2".to_string(), "b.txt".to_string()).unwrap();
    // a later collision on a.txt leaves b.txt alone, and vice versa
    try_add_file(&mut store, "QmX".to_string(), "a.txt".to_string()).unwrap();
    assert_eq!(
        query_file(&store, "a.txt".to_string()).unwrap().ipfs_address,
        "Qm1"
    );
    assert_eq!(
        query_file(&store, "b.txt".to_string()).unwrap().ipfs_address,
        "Qm2"
    );
    assert_eq!(
        query_file(&store, "c.txt".to_string()).unwrap_err(),
        ContractError::KeyNotFound
    );
}

#[test]
fn owner_and_directory_name_survive_registrations() {
    let mut store = docs_store();
    for i in 0..5u8 {
        try_add_file(&mut store, format!("Qm{}", i), format!("f{}.txt", i)).unwrap();
    }
    let st = file_registry::state::config_read(&store).unwrap();
    assert_eq!(st.owner, vec![1u8, 2, 3]);
    assert_eq!(st.directory_name, "docs");
    assert_eq!(st.address_registry.len(), 5);
}

#[test]
fn empty_file_name_is_a_legal_key() {
    let mut store = docs_store();
    try_add_file(&mut store, "QmEmpty".to_string(), "".to_string()).unwrap();
    assert_eq!(
        query_file(&store, "".to_string()).unwrap().ipfs_address,
        "QmEmpty"
    );
}

#[test]
fn handle_and_query_dispatch_to_the_operations() {
    let mut store = docs_store();
    handle(
        &mut store,
        HandleMsg::AddFileAddress {
            file_name: "a.txt".to_string(),
            ipfs_address: "Qm123".to_string(),
        },
    )
    .unwrap();
    let resp = query(&store, QueryMsg::GetFileAddress { file_name: "a.txt".to_string() }).unwrap();
    assert_eq!(resp.ipfs_address, "Qm123");
}

#[test]
fn unicode_names_and_addresses_round_trip_through_the_store() {
    let mut store = KvStore::new();
    init(
        &mut store,
        vec![0u8],
        InitMsg { directory_name: "répertoire".to_string() },
    )
    .unwrap();
    try_add_file(&mut store, "Qm→Ünïcode".to_string(), "ß.txt".to_string()).unwrap();
    assert_eq!(
        query_file(&store, "ß.txt".to_string()).unwrap().ipfs_address,
        "Qm→Ünïcode"
    );
    let st = file_registry::state::config_read(&store).unwrap();
    assert_eq!(st.directory_name, "répertoire");
}

#[test]
fn init_on_an_existing_record_fails_even_if_it_is_corrupted() {
    let mut store = KvStore::new();
    store.set(file_registry::state::config_key_bytes(), vec![0u8]);
    let err = init(
        &mut store,
        vec![1u8],
        InitMsg { directory_name: "docs".to_string() },
    )
    .unwrap_err();
    assert_eq!(err, ContractError::AlreadyInitialized);
}

#[test]
fn corrupted_record_reads_as_uninitialized() {
    let mut store = docs_store();
    store.set(file_registry::state::config_key_bytes(), vec![1u8, 2, 3]);
    let err = query_file(&store, "a.txt".to_string()).unwrap_err();
    assert_eq!(err, ContractError::Uninitialized);
    let err = try_add_file(&mut store, "Qm1".to_string(), "a.txt".to_string()).unwrap_err();
    assert_eq!(err, ContractError::Uninitialized);
}
