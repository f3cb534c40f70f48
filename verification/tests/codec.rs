//! The byte encoding of the directory state: exact bytes, round trips, and
//! rejection of blobs that do not fit the format.

use file_registry::codec::{decode_state, encode_state};
use file_registry::state::State;

fn sample_state() -> State {
    State {
        owner: vec![0xAAu8, 0xBB],
        address_registry: vec![
            ("a.txt".to_string(), "Qm123".to_string()),
            ("répertoire/ß.txt".to_string(), "QmÜnïcode".to_string()),
            ("".to_string(), "QmEmptyName".to_string()),
        ],
        directory_name: "docs".to_string(),
    }
}

#[test]
fn encoding_of_a_small_state_is_exactly_as_specified() {
    let state = State {
        owner: vec![7u8],
        address_registry: vec![],
        directory_name: "d".to_string(),
    };
    let bytes = encode_state(&state);
    let expected = vec![
        1u8, 0, 0, 0, 0, 0, 0, 0, // owner length
        7, // owner
        1, 0, 0, 0, 0, 0, 0, 0, // name length
        b'd', // name
        0, 0, 0, 0, 0, 0, 0, 0, // entry count
    ];
    assert_eq!(bytes, expected);
}

#[test]
fn decode_inverts_encode() {
    let state = sample_state();
    let bytes = encode_state(&state);
    let back = decode_state(bytes.as_slice()).unwrap();
    assert_eq!(back.owner, state.owner);
    assert_eq!(back.directory_name, state.directory_name);
    assert_eq!(back.address_registry, state.address_registry);
}

#[test]
fn decode_rejects_truncated_blobs() {
    let bytes = encode_state(&sample_state());
    for cut in [0usize, 1, 7, 8, 9, bytes.len() - 1] {
        assert!(decode_state(&bytes[..cut]).is_none());
    }
}

#[test]
fn decode_rejects_trailing_bytes() {
    let mut bytes = encode_state(&sample_state());
    bytes.push(0);
    assert!(decode_state(bytes.as_slice()).is_none());
}

#[test]
fn decode_rejects_invalid_utf8_in_a_name() {
    let state = State {
        owner: vec![],
        address_registry: vec![],
        directory_name: "dd".to_string(),
    };
    let mut bytes = encode_state(&state);
    // the directory name starts after the owner blob (8) and its length
    // prefix (8): overwrite it with an invalid UTF-8 sequence
    bytes[16] = 0xFF;
    bytes[17] = 0xFE;
    assert!(decode_state(bytes.as_slice()).is_none());
}

#[test]
fn decode_rejects_overlong_length_prefix() {
    let mut bytes = vec![0u8; 8];
    bytes[0] = 200; // owner claims 200 bytes, none follow
    assert!(decode_state(bytes.as_slice()).is_none());
}
