//! The registry's three operations: directory initialization, address
//! registration, and address lookup.
//!
//! Each operation is a one-shot transform over the singleton record of the
//! injected store: it either fully applies its effect or leaves the store
//! untouched and reports a typed failure.

use vstd::prelude::*;

use crate::codec::spec_encode_state;
use crate::error::ContractError;
use crate::msg::{FileAddressResponse, HandleMsg, InitMsg, QueryMsg};
use crate::state::{config_key, config_key_bytes, config_read, config_save, init_model,
    lookup_model, register_model, state_of, State};
use crate::store::KvStore;

verus! {

/// Create the directory state: record the caller as owner, the supplied
/// label as directory name, and an empty registry. Fails, changing nothing,
/// when the singleton record already exists.
pub fn init(store: &mut KvStore, sender: Vec<u8>, msg: InitMsg) -> (r: Result<
    (),
    ContractError,
>)
    ensures
        match r {
            Ok(()) => !old(store)@.contains_key(config_key()) && final(store)@ == old(store)@.insert(config_key(), spec_encode_state(init_model(sender@, msg.directory_name@)))
                && state_of(final(store)@) == Some(init_model(sender@, msg.directory_name@)),
            Err(e) => e == ContractError::AlreadyInitialized && old(store)@.contains_key(
                config_key(),
            ) && *final(store) == *old(store),
        },
{
    let ghost sv = sender@;
    let ghost dv = msg.directory_name@;
    let key = config_key_bytes();
    match store.get(key.as_slice()) {
        Some(_) => Err(ContractError::AlreadyInitialized),
        None => {
            let state = State {
                owner: sender,
                address_registry: Vec::new(),
                directory_name: msg.directory_name,
            };
            proof {
                assert(state@.entries =~= Seq::<(Seq<char>, Seq<char>)>::empty());
                assert(state@ =~= init_model(sv, dv));
            }
            config_save(store, &state);
            Ok(())
        },
    }
}

/// Register `file_name` under `ipfs_address`, unless the name is already
/// registered; a repeated registration is silently ignored and the first
/// recorded address kept. The (possibly unchanged) state is persisted back.
/// Fails, changing nothing, when the directory was never initialized.
pub fn try_add_file(store: &mut KvStore, ipfs_address: String, file_name: String) -> (r: Result<
    (),
    ContractError,
>)
    ensures
        match r {
            Ok(()) => state_of(old(store)@) matches Some(m) && final(store)@ == old(store)@.insert(
                config_key(),
                spec_encode_state(register_model(m, file_name@, ipfs_address@)),
            ) && state_of(final(store)@) == Some(register_model(m, file_name@, ipfs_address@)),
            Err(e) => e == ContractError::Uninitialized && state_of(old(store)@) is None && *final(store) == *old(store),
        },
{
    match config_read(store) {
        Ok(mut state) => {
            state.register_address(file_name, ipfs_address);
            config_save(store, &state);
            Ok(())
        },
        Err(e) => Err(e),
    }
}

/// Dispatch a state-mutating request.
pub fn handle(store: &mut KvStore, msg: HandleMsg) -> (r: Result<(), ContractError>)
    ensures
        msg matches HandleMsg::AddFileAddress { file_name, ipfs_address } ==> match r {
            Ok(()) => state_of(old(store)@) matches Some(m) && final(store)@ == old(store)@.insert(
                config_key(),
                spec_encode_state(register_model(m, file_name@, ipfs_address@)),
            ) && state_of(final(store)@) == Some(register_model(m, file_name@, ipfs_address@)),
            Err(e) => e == ContractError::Uninitialized && state_of(old(store)@) is None && *final(store) == *old(store),
        },
{
    match msg {
        HandleMsg::AddFileAddress { file_name, ipfs_address } => try_add_file(
            store,
            ipfs_address,
            file_name,
        ),
    }
}

/// Look `file_name` up in the recorded directory state. `Uninitialized`
/// when the directory was never initialized (or its record is corrupted),
/// `KeyNotFound` when the name was never registered.
pub fn query_file(store: &KvStore, file_name: String) -> (r: Result<
    FileAddressResponse,
    ContractError,
>)
    ensures
        match r {
            Ok(resp) => state_of(store@) matches Some(m) && lookup_model(m, file_name@) == Some(
                resp.ipfs_address@,
            ),
            Err(e) => match e {
                ContractError::Uninitialized => state_of(store@) is None,
                ContractError::KeyNotFound => state_of(store@) matches Some(m) && lookup_model(
                    m,
                    file_name@,
                ) is None,
                ContractError::AlreadyInitialized => false,
            },
        },
{
    let state = match config_read(store) {
        Ok(s) => s,
        Err(e) => {
            return Err(e);
        },
    };
    match state.lookup_address(&file_name) {
        Some(address) => Ok(FileAddressResponse { ipfs_address: address }),
        None => Err(ContractError::KeyNotFound),
    }
}

/// Dispatch a read-only request.
pub fn query(store: &KvStore, msg: QueryMsg) -> (r: Result<FileAddressResponse, ContractError>)
    ensures
        msg matches QueryMsg::GetFileAddress { file_name } ==> match r {
            Ok(resp) => state_of(store@) matches Some(m) && lookup_model(m, file_name@) == Some(
                resp.ipfs_address@,
            ),
            Err(e) => match e {
                ContractError::Uninitialized => state_of(store@) is None,
                ContractError::KeyNotFound => state_of(store@) matches Some(m) && lookup_model(
                    m,
                    file_name@,
                ) is None,
                ContractError::AlreadyInitialized => false,
            },
        },
{
    match msg {
        QueryMsg::GetFileAddress { file_name } => query_file(store, file_name),
    }
}

} // verus!
