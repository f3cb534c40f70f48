//! The byte-keyed key-value store that the host injects into each operation.
//!
//! The registry keeps its one persisted record under a fixed key of this
//! store. The store itself is general: any byte key, any byte value, and a
//! `set` on a present key replaces that key's value.

use vstd::prelude::*;
use vstd::slice::slice_to_vec;

use crate::assoc::{lemma_map_of_contains, lemma_map_of_first_match, lemma_map_of_push,
    lemma_map_of_update, map_of};

verus! {

/// The view of a vector of store entries.
pub open spec fn kv_entries_view(s: Seq<(Vec<u8>, Vec<u8>)>) -> Seq<(Seq<u8>, Seq<u8>)> {
    s.map_values(|p: (Vec<u8>, Vec<u8>)| (p.0@, p.1@))
}

/// Whether two byte slices hold the same bytes.
fn bytes_eq(a: &[u8], b: &[u8]) -> (r: bool)
    ensures
        r == (a@ == b@),
{
    if a.len() != b.len() {
        return false;
    }
    let n = a.len();
    let mut i: usize = 0;
    while i < n
        invariant
            n == a@.len(),
            n == b@.len(),
            i <= n,
            forall|j: int| 0 <= j < i ==> a@[j] == b@[j],
        decreases n - i,
    {
        if a[i] != b[i] {
            return false;
        }
        i = i + 1;
    }
    proof {
        assert(a@ =~= b@);
    }
    true
}

/// A mutable key-value byte store: `get` by key, `set` to insert or replace.
pub struct KvStore {
    entries: Vec<(Vec<u8>, Vec<u8>)>,
}

impl View for KvStore {
    type V = Map<Seq<u8>, Seq<u8>>;

    closed spec fn view(&self) -> Map<Seq<u8>, Seq<u8>> {
        map_of(kv_entries_view(self.entries@))
    }
}

impl KvStore {
    /// An empty store.
    pub fn new() -> (r: KvStore)
        ensures
            r@ == Map::<Seq<u8>, Seq<u8>>::empty(),
    {
        let r = KvStore { entries: Vec::new() };
        proof {
            assert(kv_entries_view(r.entries@) =~= Seq::<(Seq<u8>, Seq<u8>)>::empty());
            assert(r@ =~= Map::<Seq<u8>, Seq<u8>>::empty());
        }
        r
    }

    /// The index of the first entry carrying `key`, if any.
    fn find_key(&self, key: &[u8]) -> (r: Option<usize>)
        ensures
            match r {
                Some(i) => {
                    &&& i < self.entries@.len()
                    &&& kv_entries_view(self.entries@)[i as int].0 == key@
                    &&& forall|j: int|
                        0 <= j < i ==> kv_entries_view(self.entries@)[j].0 != key@
                },
                None => !self@.contains_key(key@),
            },
    {
        let n = self.entries.len();
        let mut i: usize = 0;
        while i < n
            invariant
                n == self.entries@.len(),
                i <= n,
                forall|j: int| 0 <= j < i ==> kv_entries_view(self.entries@)[j].0 != key@,
            decreases n - i,
        {
            let hit = bytes_eq(self.entries[i].0.as_slice(), key);
            proof {
                assert(kv_entries_view(self.entries@)[i as int] == (
                    self.entries@[i as int].0@,
                    self.entries@[i as int].1@,
                ));
            }
            if hit {
                return Some(i);
            }
            i = i + 1;
        }
        proof {
            lemma_map_of_contains(kv_entries_view(self.entries@), key@);
        }
        None
    }

    /// The value stored under `key`, if any, as a fresh copy.
    pub fn get(&self, key: &[u8]) -> (r: Option<Vec<u8>>)
        ensures
            match r {
                Some(v) => self@.contains_key(key@) && self@[key@] == v@,
                None => !self@.contains_key(key@),
            },
    {
        match self.find_key(key) {
            Some(i) => {
                proof {
                    lemma_map_of_first_match(kv_entries_view(self.entries@), i as int);
                }
                Some(slice_to_vec(self.entries[i].1.as_slice()))
            },
            None => None,
        }
    }

    /// Store `value` under `key`, replacing any value stored there before.
    pub fn set(&mut self, key: Vec<u8>, value: Vec<u8>)
        ensures
            final(self)@ == old(self)@.insert(key@, value@),
    {
        let ghost keyv = key@;
        let ghost valuev = value@;
        match self.find_key(key.as_slice()) {
            Some(i) => {
                proof {
                    lemma_map_of_update(kv_entries_view(self.entries@), i as int, keyv, valuev);
                }
                let ghost pre = kv_entries_view(self.entries@);
                self.entries.set(i, (key, value));
                proof {
                    assert(kv_entries_view(self.entries@) =~= pre.update(i as int, (keyv, valuev)));
                }
            },
            None => {
                proof {
                    lemma_map_of_push(kv_entries_view(self.entries@), keyv, valuev);
                }
                let ghost pre = kv_entries_view(self.entries@);
                self.entries.push((key, value));
                proof {
                    assert(kv_entries_view(self.entries@) =~= pre.push((keyv, valuev)));
                }
            },
        }
    }
}

} // verus!
