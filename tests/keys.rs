use ink_core::key::{derive_address, key_add, KeyPtr, PREFIX};
use parity_scale_codec::Encode;
use std::collections::HashSet;

#[test]
fn cursor_hands_out_consecutive_keys() {
    let mut ptr = KeyPtr::from_key([0u8; 32]);
    let a = ptr.advance_by(1);
    let b = ptr.advance_by(3);
    let c = ptr.advance_by(1);
    let mut one = [0u8; 32];
    one[0] = 1;
    let mut four = [0u8; 32];
    four[0] = 4;
    assert_eq!(a, [0u8; 32]);
    assert_eq!(b, one);
    assert_eq!(c, four);
}

#[test]
fn cursor_carries_into_higher_bytes() {
    let mut base = [0u8; 32];
    base[0] = 255;
    let mut ptr = KeyPtr::from_key(base);
    let first = ptr.next_for(1);
    let second = ptr.next_for(1);
    let mut expected = [0u8; 32];
    expected[1] = 1;
    assert_eq!(first, base);
    assert_eq!(second, expected);
}

#[test]
fn cursor_wraps_at_the_top() {
    let base = [255u8; 32];
    let mut ptr = KeyPtr::from_key(base);
    ptr.advance_by(2);
    let next = ptr.advance_by(1);
    let mut expected = [0u8; 32];
    expected[0] = 1;
    assert_eq!(next, expected);
}

#[test]
fn address_is_deterministic() {
    let root = [7u8; 32];
    assert_eq!(derive_address(&root, b"alice"), derive_address(&root, b"alice"));
}

#[test]
fn address_depends_on_root_and_key() {
    let root = [7u8; 32];
    let other = [8u8; 32];
    assert_ne!(derive_address(&root, b"alice"), derive_address(&root, b"bob"));
    assert_ne!(derive_address(&root, b"alice"), derive_address(&other, b"alice"));
}

#[test]
fn address_matches_hash_of_prefix_root_and_key_hash() {
    let root = [3u8; 32];
    let encoded = "alice".encode();
    let mut key_hash = [0u8; 32];
    ink_env::hash_bytes::<ink_env::hash::Blake2x256>(&encoded, &mut key_hash);
    let mut buf = PREFIX.to_vec();
    buf.extend_from_slice(&root);
    buf.extend_from_slice(&key_hash);
    let mut expected = [0u8; 32];
    ink_env::hash_bytes::<ink_env::hash::Blake2x256>(&buf, &mut expected);
    assert_eq!(derive_address(&root, &encoded), expected);
    assert_eq!(&PREFIX[..], b"ink simplehashmap");
}

#[test]
fn encoded_key_hash_matches_hashing_the_typed_key() {
    let mut typed = [0u8; 32];
    ink_env::hash_encoded::<ink_env::hash::Blake2x256, u64>(&77u64, &mut typed);
    let mut raw = [0u8; 32];
    ink_env::hash_bytes::<ink_env::hash::Blake2x256>(&77u64.encode(), &mut raw);
    assert_eq!(typed, raw);
    let root = [1u8; 32];
    assert_eq!(derive_address(&root, &77u64.encode()), derive_address(&root, &[77, 0, 0, 0, 0, 0, 0, 0]));
}

#[test]
fn key_addition_carries_across_all_bytes() {
    let mut key = [255u8; 32];
    key[31] = 0;
    assert_eq!(key_add(&key, 1), {
        let mut e = [0u8; 32];
        e[31] = 1;
        e
    });
    let mut low = [0u8; 32];
    low[0] = 0xff;
    low[1] = 0xff;
    let sum = key_add(&low, 0x0102);
    assert_eq!(&sum[..4], &[0x01, 0x01, 0x01, 0x00]);
    assert_eq!(key_add(&[0u8; 32], u64::MAX)[..9], [255, 255, 255, 255, 255, 255, 255, 255, 0]);
}

#[test]
fn ten_thousand_keys_have_distinct_addresses() {
    let root = [42u8; 32];
    let mut seen = HashSet::new();
    for i in 0u32..10_000 {
        let key = format!("key-{}", i);
        assert!(seen.insert(derive_address(&root, key.as_bytes())));
    }
    assert_eq!(seen.len(), 10_000);
}
