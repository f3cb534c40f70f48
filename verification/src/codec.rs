//! The byte encoding of the directory state.
//!
//! The persisted record is a length-prefixed structured blob: the owner's
//! identity bytes, then the directory name in UTF-8, then the entry count,
//! then each registry entry as two UTF-8 strings, every variable-length
//! field preceded by its byte length as a little-endian `u64`.
//!
//! `spec_encode_state` and `spec_decode_state` define the format
//! mathematically; `encode_state` and `decode_state` implement it and are
//! proved to match, so a decoded record is exactly the record that was
//! saved, and a blob that does not fit the format is rejected.

use vstd::prelude::*;
use vstd::bytes::{lemma_auto_spec_u64_to_from_le_bytes, spec_u64_from_le_bytes,
    spec_u64_to_le_bytes, u64_from_le_bytes, u64_to_le_bytes};
use vstd::slice::{slice_subrange, slice_to_vec};
use vstd::string::StrSliceExecFns;
use vstd::utf8::{decode_utf8, encode_utf8, encode_utf8_decode_utf8, encode_utf8_valid_utf8,
    valid_utf8};

use crate::state::{entries_view, State, StateModel};

verus! {

/// A byte blob prefixed with its length as a little-endian `u64`.
pub open spec fn spec_encode_blob(b: Seq<u8>) -> Seq<u8> {
    spec_u64_to_le_bytes(b.len() as u64) + b
}

/// A string as its length-prefixed UTF-8 bytes.
pub open spec fn spec_encode_string(s: Seq<char>) -> Seq<u8> {
    spec_encode_blob(encode_utf8(s))
}

/// One registry entry: the file name, then the address.
pub open spec fn spec_encode_entry(e: (Seq<char>, Seq<char>)) -> Seq<u8> {
    spec_encode_string(e.0) + spec_encode_string(e.1)
}

/// The registry entries, in order.
pub open spec fn spec_encode_entries(es: Seq<(Seq<char>, Seq<char>)>) -> Seq<u8>
    decreases es.len(),
{
    if es.len() == 0 {
        Seq::empty()
    } else {
        spec_encode_entry(es[0]) + spec_encode_entries(es.skip(1))
    }
}

/// The whole directory state as one blob.
pub open spec fn spec_encode_state(m: StateModel) -> Seq<u8> {
    spec_encode_blob(m.owner) + spec_encode_string(m.directory_name) + spec_u64_to_le_bytes(
        m.entries.len() as u64,
    ) + spec_encode_entries(m.entries)
}

/// Reading a `u64` at `pos`: the value and the position after it.
pub open spec fn spec_read_u64(b: Seq<u8>, pos: int) -> Option<(u64, int)> {
    if 0 <= pos && pos + 8 <= b.len() {
        Some((spec_u64_from_le_bytes(b.subrange(pos, pos + 8)), pos + 8))
    } else {
        None
    }
}

/// Reading a length-prefixed blob at `pos`.
pub open spec fn spec_read_blob(b: Seq<u8>, pos: int) -> Option<(Seq<u8>, int)> {
    match spec_read_u64(b, pos) {
        Some((n, p)) => if p + n <= b.len() {
            Some((b.subrange(p, p + n), p + n))
        } else {
            None
        },
        None => None,
    }
}

/// Reading a length-prefixed UTF-8 string at `pos`.
pub open spec fn spec_read_string(b: Seq<u8>, pos: int) -> Option<(Seq<char>, int)> {
    match spec_read_blob(b, pos) {
        Some((bytes, p)) => if valid_utf8(bytes) {
            Some((decode_utf8(bytes), p))
        } else {
            None
        },
        None => None,
    }
}

/// Reading `n` registry entries at `pos`.
pub open spec fn spec_read_entries(b: Seq<u8>, pos: int, n: nat) -> Option<
    (Seq<(Seq<char>, Seq<char>)>, int),
>
    decreases n,
{
    if n == 0 {
        Some((Seq::empty(), pos))
    } else {
        match spec_read_string(b, pos) {
            Some((k, p1)) => match spec_read_string(b, p1) {
                Some((v, p2)) => match spec_read_entries(b, p2, (n - 1) as nat) {
                    Some((rest, p3)) => Some((seq![(k, v)] + rest, p3)),
                    None => None,
                },
                None => None,
            },
            None => None,
        }
    }
}

/// The directory state described by a blob, if the blob fits the format
/// exactly.
pub open spec fn spec_decode_state(b: Seq<u8>) -> Option<StateModel> {
    match spec_read_blob(b, 0) {
        Some((owner, p1)) => match spec_read_string(b, p1) {
            Some((directory_name, p2)) => match spec_read_u64(b, p2) {
                Some((n, p3)) => match spec_read_entries(b, p3, n as nat) {
                    Some((entries, p4)) => if p4 == b.len() {
                        Some(StateModel { owner, directory_name, entries })
                    } else {
                        None
                    },
                    None => None,
                },
                None => None,
            },
            None => None,
        },
        None => None,
    }
}

/// Relies on `String::from_utf8`: it returns the string holding exactly the
/// given bytes when they are valid UTF-8, and fails otherwise.
#[verifier::external_body]
fn bytes_to_string(bytes: Vec<u8>) -> (r: Option<String>)
    ensures
        r is Some <==> valid_utf8(bytes@),
        r matches Some(s) ==> encode_utf8(s@) == bytes@,
{
    String::from_utf8(bytes).ok()
}

fn read_u64(b: &[u8], pos: usize) -> (r: Option<(u64, usize)>)
    ensures
        match r {
            Some((x, p)) => spec_read_u64(b@, pos as int) == Some((x, p as int)),
            None => spec_read_u64(b@, pos as int) is None,
        },
{
    if b.len() >= 8 && pos <= b.len() - 8 {
        let s = slice_subrange(b, pos, pos + 8);
        let x = u64_from_le_bytes(s);
        Some((x, pos + 8))
    } else {
        None
    }
}

fn read_blob(b: &[u8], pos: usize) -> (r: Option<(Vec<u8>, usize)>)
    ensures
        match r {
            Some((v, p)) => spec_read_blob(b@, pos as int) == Some((v@, p as int)),
            None => spec_read_blob(b@, pos as int) is None,
        },
{
    match read_u64(b, pos) {
        Some((n, p)) => {
            if n <= (b.len() - p) as u64 {
                let len = n as usize;
                let s = slice_subrange(b, p, p + len);
                Some((slice_to_vec(s), p + len))
            } else {
                None
            }
        },
        None => None,
    }
}

fn read_string(b: &[u8], pos: usize) -> (r: Option<(String, usize)>)
    ensures
        match r {
            Some((s, p)) => spec_read_string(b@, pos as int) == Some((s@, p as int)),
            None => spec_read_string(b@, pos as int) is None,
        },
{
    match read_blob(b, pos) {
        Some((bytes, p)) => {
            let ghost bv = bytes@;
            match bytes_to_string(bytes) {
                Some(s) => {
                    proof {
                        encode_utf8_decode_utf8(s@);
                    }
                    Some((s, p))
                },
                None => None,
            }
        },
        None => None,
    }
}

fn read_entries(b: &[u8], pos: usize, n: u64) -> (r: Option<(Vec<(String, String)>, usize)>)
    ensures
        match r {
            Some((es, p)) => spec_read_entries(b@, pos as int, n as nat) == Some(
                (entries_view(es@), p as int),
            ),
            None => spec_read_entries(b@, pos as int, n as nat) is None,
        },
{
    let mut acc: Vec<(String, String)> = Vec::new();
    let mut cur: usize = pos;
    let mut i: u64 = 0;
    proof {
        assert(entries_view(acc@) =~= Seq::<(Seq<char>, Seq<char>)>::empty());
    }
    while i < n
        invariant
            i <= n,
            spec_read_entries(b@, pos as int, n as nat) == (match spec_read_entries(
                b@,
                cur as int,
                (n - i) as nat,
            ) {
                Some((rest, p)) => Some((entries_view(acc@) + rest, p)),
                None => None::<(Seq<(Seq<char>, Seq<char>)>, int)>,
            }),
        decreases n - i,
    {
        let (k, p1) = match read_string(b, cur) {
            Some(x) => x,
            None => {
                return None;
            },
        };
        let (v, p2) = match read_string(b, p1) {
            Some(x) => x,
            None => {
                return None;
            },
        };
        let ghost pre = entries_view(acc@);
        acc.push((k, v));
        proof {
            let kv = acc@[acc@.len() - 1];
            assert(entries_view(acc@) =~= pre.push((kv.0@, kv.1@)));
            let next = spec_read_entries(b@, p2 as int, (n - i - 1) as nat);
            if next is Some {
                let (rest, p) = next->Some_0;
                assert(entries_view(acc@) + rest =~= pre + (seq![(kv.0@, kv.1@)] + rest));
            }
        }
        cur = p2;
        i = i + 1;
    }
    proof {
        assert(spec_read_entries(b@, cur as int, 0) == Some(
            (Seq::<(Seq<char>, Seq<char>)>::empty(), cur as int),
        ));
        assert(entries_view(acc@) + Seq::<(Seq<char>, Seq<char>)>::empty() =~= entries_view(acc@));
    }
    Some((acc, cur))
}

/// Decode a persisted blob back into a directory state; `None` when the
/// blob does not fit the format exactly.
pub fn decode_state(bytes: &[u8]) -> (r: Option<State>)
    ensures
        match r {
            Some(st) => spec_decode_state(bytes@) == Some(st@),
            None => spec_decode_state(bytes@) is None,
        },
{
    let (owner, p1) = match read_blob(bytes, 0) {
        Some(x) => x,
        None => {
            return None;
        },
    };
    let (directory_name, p2) = match read_string(bytes, p1) {
        Some(x) => x,
        None => {
            return None;
        },
    };
    let (n, p3) = match read_u64(bytes, p2) {
        Some(x) => x,
        None => {
            return None;
        },
    };
    let (address_registry, p4) = match read_entries(bytes, p3, n) {
        Some(x) => x,
        None => {
            return None;
        },
    };
    if p4 != bytes.len() {
        return None;
    }
    let st = State { owner, address_registry, directory_name };
    proof {
        assert(spec_decode_state(bytes@) matches Some(m) && m =~= st@);
    }
    Some(st)
}

fn push_u64(out: &mut Vec<u8>, x: u64)
    ensures
        final(out)@ == old(out)@ + spec_u64_to_le_bytes(x),
{
    let mut b = u64_to_le_bytes(x);
    out.append(&mut b);
}

fn push_blob(out: &mut Vec<u8>, b: &[u8])
    ensures
        final(out)@ == old(out)@ + spec_encode_blob(b@),
        b@.len() <= u64::MAX,
{
    push_u64(out, b.len() as u64);
    let mut v = slice_to_vec(b);
    out.append(&mut v);
    proof {
        assert(out@ =~= old(out)@ + spec_encode_blob(b@));
    }
}

fn push_string(out: &mut Vec<u8>, s: &String)
    ensures
        final(out)@ == old(out)@ + spec_encode_string(s@),
        encode_utf8(s@).len() <= u64::MAX,
{
    let bytes = s.as_str().as_bytes_vec();
    push_blob(out, bytes.as_slice());
}

/// Every variable-length field of the model is small enough for its length
/// prefix. This holds of the view of any in-memory state.
pub open spec fn model_fits(m: StateModel) -> bool {
    &&& m.owner.len() <= u64::MAX
    &&& encode_utf8(m.directory_name).len() <= u64::MAX
    &&& m.entries.len() <= u64::MAX
    &&& forall|i: int|
        0 <= i < m.entries.len() ==> encode_utf8((#[trigger] m.entries[i]).0).len() <= u64::MAX
            && encode_utf8(m.entries[i].1).len() <= u64::MAX
}

proof fn lemma_read_u64_at(b: Seq<u8>, pos: int, x: u64)
    requires
        0 <= pos,
        pos + 8 <= b.len(),
        b.subrange(pos, pos + 8) == spec_u64_to_le_bytes(x),
    ensures
        spec_read_u64(b, pos) == Some((x, pos + 8)),
{
    lemma_auto_spec_u64_to_from_le_bytes();
}

proof fn lemma_read_blob_at(b: Seq<u8>, pos: int, blob: Seq<u8>)
    requires
        0 <= pos,
        blob.len() <= u64::MAX,
        pos + 8 + blob.len() <= b.len(),
        b.subrange(pos, pos + 8 + blob.len()) == spec_encode_blob(blob),
    ensures
        spec_read_blob(b, pos) == Some((blob, pos + 8 + blob.len())),
{
    lemma_auto_spec_u64_to_from_le_bytes();
    let enc = spec_encode_blob(blob);
    let lenb = spec_u64_to_le_bytes(blob.len() as u64);
    assert(b.subrange(pos, pos + 8) =~= lenb) by {
        assert forall|k: int| 0 <= k < 8 implies b.subrange(pos, pos + 8)[k] == lenb[k] by {
            assert(b[pos + k] == b.subrange(pos, pos + 8 + blob.len())[k]);
            assert(enc[k] == lenb[k]);
        }
    }
    lemma_read_u64_at(b, pos, blob.len() as u64);
    assert(b.subrange(pos + 8, pos + 8 + blob.len()) =~= blob) by {
        assert forall|k: int| 0 <= k < blob.len() implies b.subrange(
            pos + 8,
            pos + 8 + blob.len(),
        )[k] == blob[k] by {
            assert(b[pos + 8 + k] == b.subrange(pos, pos + 8 + blob.len())[8 + k]);
            assert(enc[8 + k] == blob[k]);
        }
    }
}

proof fn lemma_read_string_at(b: Seq<u8>, pos: int, s: Seq<char>)
    requires
        0 <= pos,
        encode_utf8(s).len() <= u64::MAX,
        pos + spec_encode_string(s).len() <= b.len(),
        b.subrange(pos, pos + spec_encode_string(s).len()) == spec_encode_string(s),
    ensures
        spec_read_string(b, pos) == Some((s, pos + spec_encode_string(s).len())),
        spec_encode_string(s).len() == 8 + encode_utf8(s).len(),
{
    lemma_auto_spec_u64_to_from_le_bytes();
    lemma_read_blob_at(b, pos, encode_utf8(s));
    encode_utf8_valid_utf8(s);
    encode_utf8_decode_utf8(s);
}

proof fn lemma_read_entries_at(b: Seq<u8>, pos: int, es: Seq<(Seq<char>, Seq<char>)>)
    requires
        0 <= pos,
        forall|i: int|
            0 <= i < es.len() ==> encode_utf8((#[trigger] es[i]).0).len() <= u64::MAX
                && encode_utf8(es[i].1).len() <= u64::MAX,
        pos + spec_encode_entries(es).len() <= b.len(),
        b.subrange(pos, pos + spec_encode_entries(es).len()) == spec_encode_entries(es),
    ensures
        spec_read_entries(b, pos, es.len()) == Some((es, pos + spec_encode_entries(es).len())),
    decreases es.len(),
{
    lemma_auto_spec_u64_to_from_le_bytes();
    if es.len() == 0 {
    } else {
        let k = es[0].0;
        let v = es[0].1;
        let klen = spec_encode_string(k).len();
        let vlen = spec_encode_string(v).len();
        let total = spec_encode_entries(es).len();
        let enc = spec_encode_entries(es);
        assert(enc == spec_encode_entry(es[0]) + spec_encode_entries(es.skip(1)));
        assert(klen + vlen + spec_encode_entries(es.skip(1)).len() == total);
        assert(b.subrange(pos, pos + klen) =~= spec_encode_string(k)) by {
            assert forall|j: int| 0 <= j < klen implies b.subrange(pos, pos + klen)[j]
                == spec_encode_string(k)[j] by {
                assert(b[pos + j] == b.subrange(pos, pos + total)[j]);
                assert(enc[j] == spec_encode_string(k)[j]);
            }
        }
        lemma_read_string_at(b, pos, k);
        let p1 = pos + klen;
        assert(b.subrange(p1, p1 + vlen) =~= spec_encode_string(v)) by {
            assert forall|j: int| 0 <= j < vlen implies b.subrange(p1, p1 + vlen)[j]
                == spec_encode_string(v)[j] by {
                assert(b[p1 + j] == b.subrange(pos, pos + total)[klen + j]);
                assert(enc[klen + j] == spec_encode_string(v)[j]);
            }
        }
        lemma_read_string_at(b, p1, v);
        let p2 = p1 + vlen;
        let restlen = spec_encode_entries(es.skip(1)).len();
        assert forall|i: int| 0 <= i < es.skip(1).len() implies encode_utf8(
            (#[trigger] es.skip(1)[i]).0,
        ).len() <= u64::MAX && encode_utf8(es.skip(1)[i].1).len() <= u64::MAX by {
            assert(es.skip(1)[i] == es[i + 1]);
        }
        assert(b.subrange(p2, p2 + restlen) =~= spec_encode_entries(es.skip(1))) by {
            assert forall|j: int| 0 <= j < restlen implies b.subrange(p2, p2 + restlen)[j]
                == spec_encode_entries(es.skip(1))[j] by {
                assert(b[p2 + j] == b.subrange(pos, pos + total)[klen + vlen + j]);
                assert(enc[klen + vlen + j] == spec_encode_entries(es.skip(1))[j]);
            }
        }
        lemma_read_entries_at(b, p2, es.skip(1));
        assert(seq![(k, v)] + es.skip(1) =~= es);
    }
}

/// Encoding one more entry extends the encoding of the ones before it.
proof fn lemma_encode_entries_snoc(es: Seq<(Seq<char>, Seq<char>)>, e: (Seq<char>, Seq<char>))
    ensures
        spec_encode_entries(es.push(e)) == spec_encode_entries(es) + spec_encode_entry(e),
    decreases es.len(),
{
    if es.len() == 0 {
        let t = es.push(e);
        assert(t[0] == e);
        assert(t.skip(1) =~= Seq::<(Seq<char>, Seq<char>)>::empty());
        assert(spec_encode_entries(t.skip(1)) =~= Seq::<u8>::empty());
        assert(spec_encode_entries(t) == spec_encode_entry(e) + spec_encode_entries(t.skip(1)));
        assert(spec_encode_entries(es) =~= Seq::<u8>::empty());
        assert(spec_encode_entries(t) =~= spec_encode_entries(es) + spec_encode_entry(e));
    } else {
        assert(es.push(e).skip(1) =~= es.skip(1).push(e));
        lemma_encode_entries_snoc(es.skip(1), e);
        assert(es.push(e)[0] == es[0]);
        assert(spec_encode_entries(es.push(e)) == spec_encode_entry(es[0]) + spec_encode_entries(
            es.skip(1).push(e),
        ));
        assert(spec_encode_entries(es) == spec_encode_entry(es[0]) + spec_encode_entries(
            es.skip(1),
        ));
        assert(spec_encode_entry(es[0]) + (spec_encode_entries(es.skip(1)) + spec_encode_entry(e))
            =~= (spec_encode_entry(es[0]) + spec_encode_entries(es.skip(1))) + spec_encode_entry(
            e,
        ));
    }
}

/// A blob produced by `spec_encode_state` decodes to exactly the encoded
/// model: the format loses nothing.
pub proof fn lemma_decode_encode(m: StateModel)
    requires
        model_fits(m),
    ensures
        spec_decode_state(spec_encode_state(m)) == Some(m),
{
    lemma_auto_spec_u64_to_from_le_bytes();
    let b = spec_encode_state(m);
    let ownerlen = 8 + m.owner.len();
    let namelen = spec_encode_string(m.directory_name).len();
    let entrieslen = spec_encode_entries(m.entries).len();
    assert(b.len() == ownerlen + namelen + 8 + entrieslen);
    assert(b.subrange(0, ownerlen as int) =~= spec_encode_blob(m.owner));
    lemma_read_blob_at(b, 0, m.owner);
    let p1 = ownerlen as int;
    assert(b.subrange(p1, p1 + namelen) =~= spec_encode_string(m.directory_name));
    lemma_read_string_at(b, p1, m.directory_name);
    let p2 = p1 + namelen;
    assert(b.subrange(p2, p2 + 8) =~= spec_u64_to_le_bytes(m.entries.len() as u64));
    lemma_read_u64_at(b, p2, m.entries.len() as u64);
    let p3 = p2 + 8;
    assert(b.subrange(p3, p3 + entrieslen) =~= spec_encode_entries(m.entries));
    lemma_read_entries_at(b, p3, m.entries);
    assert(spec_decode_state(b) == Some(m));
}

/// Encode a directory state for persistence.
pub fn encode_state(state: &State) -> (r: Vec<u8>)
    ensures
        r@ == spec_encode_state(state@),
        model_fits(state@),
        spec_decode_state(r@) == Some(state@),
{
    let ghost m = state@;
    let mut out: Vec<u8> = Vec::new();
    push_blob(&mut out, state.owner.as_slice());
    push_string(&mut out, &state.directory_name);
    let n = state.address_registry.len();
    push_u64(&mut out, n as u64);
    let ghost prefix = out@;
    let mut i: usize = 0;
    proof {
        assert(m.entries.take(0) =~= Seq::<(Seq<char>, Seq<char>)>::empty());
        assert(prefix + spec_encode_entries(m.entries.take(0)) =~= prefix);
        assert(m.entries.len() == n);
    }
    while i < n
        invariant
            i <= n,
            n == state.address_registry@.len(),
            m == state@,
            m.entries.len() == n,
            out@ == prefix + spec_encode_entries(m.entries.take(i as int)),
            forall|j: int|
                0 <= j < i ==> encode_utf8((#[trigger] m.entries[j]).0).len() <= u64::MAX
                    && encode_utf8(m.entries[j].1).len() <= u64::MAX,
        decreases n - i,
    {
        proof {
            assert(m.entries[i as int] == (
                state.address_registry@[i as int].0@,
                state.address_registry@[i as int].1@,
            ));
        }
        push_string(&mut out, &state.address_registry[i].0);
        push_string(&mut out, &state.address_registry[i].1);
        proof {
            lemma_encode_entries_snoc(m.entries.take(i as int), m.entries[i as int]);
            assert(m.entries.take(i + 1) =~= m.entries.take(i as int).push(m.entries[i as int]));
            assert(out@ =~= prefix + spec_encode_entries(m.entries.take(i + 1)));
        }
        i = i + 1;
    }
    proof {
        assert(m.entries.take(n as int) =~= m.entries);
        assert(out@ =~= spec_encode_state(m));
        lemma_decode_encode(m);
    }
    out
}

} // verus!
