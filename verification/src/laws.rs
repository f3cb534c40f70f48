//! The general guarantees of the registry, stated and proved over the ghost
//! model that the operations' contracts speak of.

use vstd::prelude::*;

use crate::assoc::lemma_map_of_push;
use crate::state::{lookup_model, register_model, StateModel};

verus! {

/// Idempotent insert: a second registration under the same file name is a
/// no-op, so after `register(file_name, a)` then `register(file_name, b)` a
/// lookup still returns `a` — never `b`, however the two differ.
pub proof fn lemma_register_idempotent(
    m: StateModel,
    file_name: Seq<char>,
    a: Seq<char>,
    b: Seq<char>,
)
    ensures
        register_model(register_model(m, file_name, a), file_name, b) == register_model(
            m,
            file_name,
            a,
        ),
        !m.registry().contains_key(file_name) ==> lookup_model(
            register_model(register_model(m, file_name, a), file_name, b),
            file_name,
        ) == Some(a),
        !m.registry().contains_key(file_name) && a != b ==> lookup_model(
            register_model(register_model(m, file_name, a), file_name, b),
            file_name,
        ) != Some(b),
{
    if !m.registry().contains_key(file_name) {
        lemma_map_of_push(m.entries, file_name, a);
        let m1 = register_model(m, file_name, a);
        assert(m1.registry() == m.registry().insert(file_name, a));
        assert(m1.registry().contains_key(file_name));
    }
}

/// No cross-key interference: registering one file name leaves the lookup
/// of every other file name unchanged.
pub proof fn lemma_register_no_cross_key(
    m: StateModel,
    file_name1: Seq<char>,
    address: Seq<char>,
    file_name2: Seq<char>,
)
    requires
        file_name2 != file_name1,
    ensures
        lookup_model(register_model(m, file_name1, address), file_name2) == lookup_model(
            m,
            file_name2,
        ),
{
    if !m.registry().contains_key(file_name1) {
        lemma_map_of_push(m.entries, file_name1, address);
        assert(register_model(m, file_name1, address).registry() == m.registry().insert(
            file_name1,
            address,
        ));
    }
}

/// The state left by a sequence of registrations, applied in order.
pub open spec fn apply_registrations(m: StateModel, calls: Seq<(Seq<char>, Seq<char>)>) -> StateModel
    decreases calls.len(),
{
    if calls.len() == 0 {
        m
    } else {
        apply_registrations(register_model(m, calls[0].0, calls[0].1), calls.skip(1))
    }
}

/// Immutability of identity fields: any number of registrations, in any
/// order, leaves `owner` and `directory_name` exactly as initialization
/// recorded them.
pub proof fn lemma_identity_fields_immutable(m: StateModel, calls: Seq<(Seq<char>, Seq<char>)>)
    ensures
        apply_registrations(m, calls).owner == m.owner,
        apply_registrations(m, calls).directory_name == m.directory_name,
    decreases calls.len(),
{
    if calls.len() > 0 {
        lemma_identity_fields_immutable(
            register_model(m, calls[0].0, calls[0].1),
            calls.skip(1),
        );
    }
}

} // verus!
