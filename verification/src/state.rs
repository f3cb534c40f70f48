//! The directory state: the one persisted record of the registry, and the
//! ghost model that the contracts of the three operations speak of.

use vstd::prelude::*;

use crate::assoc::{lemma_map_of_contains, lemma_map_of_first_match, lemma_map_of_push, map_of};
use crate::codec::{decode_state, encode_state, spec_decode_state, spec_encode_state};
use crate::error::ContractError;
use crate::store::KvStore;

verus! {

/// The mathematical model of a directory state: the owner's canonical
/// identity bytes, the directory's label, and the registered file-name to
/// address pairs in the order of their first registration.
#[verifier::ext_equal]
pub ghost struct StateModel {
    pub owner: Seq<u8>,
    pub directory_name: Seq<char>,
    pub entries: Seq<(Seq<char>, Seq<char>)>,
}

impl StateModel {
    /// The registry read as a map from file name to address.
    pub open spec fn registry(self) -> Map<Seq<char>, Seq<char>> {
        map_of(self.entries)
    }
}

/// The model of a freshly initialized directory: an empty registry under the
/// given owner and label.
pub open spec fn init_model(owner: Seq<u8>, directory_name: Seq<char>) -> StateModel {
    StateModel { owner, directory_name, entries: Seq::empty() }
}

/// The model of registering `file_name`: insert-if-absent. A name already
/// present keeps its first recorded address; the new address is ignored.
pub open spec fn register_model(m: StateModel, file_name: Seq<char>, address: Seq<char>) -> StateModel {
    if m.registry().contains_key(file_name) {
        m
    } else {
        StateModel { entries: m.entries.push((file_name, address)), ..m }
    }
}

/// The model of looking a file name up: the registered address, if any.
pub open spec fn lookup_model(m: StateModel, file_name: Seq<char>) -> Option<Seq<char>> {
    if m.registry().contains_key(file_name) {
        Some(m.registry()[file_name])
    } else {
        None
    }
}

/// The view of a vector of registry entries.
pub open spec fn entries_view(s: Seq<(String, String)>) -> Seq<(Seq<char>, Seq<char>)> {
    s.map_values(|p: (String, String)| (p.0@, p.1@))
}

/// The persisted directory state.
pub struct State {
    /// Canonical identity bytes of the account that performed `init`.
    /// Never mutated after creation.
    pub owner: Vec<u8>,
    /// The registered file-name to address pairs, earliest first. Only
    /// `register_address` extends it; no entry is ever removed or changed.
    pub address_registry: Vec<(String, String)>,
    /// Human-readable label supplied at creation. Never mutated.
    pub directory_name: String,
}

impl View for State {
    type V = StateModel;

    open spec fn view(&self) -> StateModel {
        StateModel {
            owner: self.owner@,
            directory_name: self.directory_name@,
            entries: entries_view(self.address_registry@),
        }
    }
}

impl State {
    /// The index of the first registry entry carrying `file_name`, if any.
    fn find_entry(&self, file_name: &String) -> (r: Option<usize>)
        ensures
            match r {
                Some(i) => {
                    &&& i < self.address_registry@.len()
                    &&& self@.entries[i as int].0 == file_name@
                    &&& forall|j: int| 0 <= j < i ==> self@.entries[j].0 != file_name@
                },
                None => !self@.registry().contains_key(file_name@),
            },
    {
        let n = self.address_registry.len();
        let mut i: usize = 0;
        while i < n
            invariant
                n == self.address_registry@.len(),
                i <= n,
                forall|j: int| 0 <= j < i ==> self@.entries[j].0 != file_name@,
            decreases n - i,
        {
            let hit = self.address_registry[i].0 == *file_name;
            proof {
                assert(self@.entries[i as int] == (
                    self.address_registry@[i as int].0@,
                    self.address_registry@[i as int].1@,
                ));
            }
            if hit {
                return Some(i);
            }
            i = i + 1;
        }
        proof {
            lemma_map_of_contains(self@.entries, file_name@);
        }
        None
    }

    /// Look `file_name` up in the registry.
    pub fn lookup_address(&self, file_name: &String) -> (r: Option<String>)
        ensures
            match r {
                Some(address) => lookup_model(self@, file_name@) == Some(address@),
                None => lookup_model(self@, file_name@) is None,
            },
    {
        match self.find_entry(file_name) {
            Some(i) => {
                proof {
                    lemma_map_of_first_match(self@.entries, i as int);
                }
                Some(self.address_registry[i].1.clone())
            },
            None => None,
        }
    }

    /// Register `file_name` under `address`, unless it is already
    /// registered; a second registration of the same name is silently
    /// ignored, whatever address it carries.
    pub fn register_address(&mut self, file_name: String, address: String)
        ensures
            final(self)@ == register_model(old(self)@, file_name@, address@),
            final(self).owner == old(self).owner,
            final(self).directory_name == old(self).directory_name,
    {
        match self.find_entry(&file_name) {
            Some(i) => {
                proof {
                    lemma_map_of_first_match(self@.entries, i as int);
                    assert(final(self)@ =~= register_model(old(self)@, file_name@, address@));
                }
            },
            None => {
                proof {
                    lemma_map_of_push(self@.entries, file_name@, address@);
                }
                let ghost pre = self@.entries;
                self.address_registry.push((file_name, address));
                proof {
                    assert(self@.entries =~= pre.push((file_name@, address@)));
                    assert(self@ =~= register_model(old(self)@, file_name@, address@));
                }
            },
        }
    }
}

/// The fixed store key of the singleton record: the bytes of `config`.
pub open spec fn config_key() -> Seq<u8> {
    seq![99u8, 111u8, 110u8, 102u8, 105u8, 103u8]
}

/// The fixed store key as a vector.
pub fn config_key_bytes() -> (r: Vec<u8>)
    ensures
        r@ == config_key(),
{
    let mut r: Vec<u8> = Vec::new();
    r.push(99u8);
    r.push(111u8);
    r.push(110u8);
    r.push(102u8);
    r.push(105u8);
    r.push(103u8);
    proof {
        assert(r@ =~= config_key());
    }
    r
}

/// The directory state a store records: the decoded singleton record, or
/// `None` when that record is absent or does not hold a well-formed
/// encoding.
pub open spec fn state_of(store: Map<Seq<u8>, Seq<u8>>) -> Option<StateModel> {
    if store.contains_key(config_key()) {
        spec_decode_state(store[config_key()])
    } else {
        None
    }
}

/// Persist `state` as the singleton record of `store`.
pub fn config_save(store: &mut KvStore, state: &State)
    ensures
        final(store)@ == old(store)@.insert(config_key(), spec_encode_state(state@)),
        state_of(final(store)@) == Some(state@),
{
    let bytes = encode_state(state);
    store.set(config_key_bytes(), bytes);
}

/// Load the singleton record of `store`; `Uninitialized` when it is absent
/// or corrupted.
pub fn config_read(store: &KvStore) -> (r: Result<State, ContractError>)
    ensures
        match r {
            Ok(st) => state_of(store@) == Some(st@),
            Err(e) => e == ContractError::Uninitialized && state_of(store@) is None,
        },
{
    let key = config_key_bytes();
    match store.get(key.as_slice()) {
        Some(bytes) => match decode_state(bytes.as_slice()) {
            Some(st) => Ok(st),
            None => Err(ContractError::Uninitialized),
        },
        None => Err(ContractError::Uninitialized),
    }
}

} // verus!
