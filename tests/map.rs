use ink_core::hashmap::{pull_packed, push_packed, clear_packed, SimpleHashMap, FOOTPRINT};
use ink_core::key::{derive_address, KeyPtr};
use ink_core::storage::{MemoryStorage, PackedValue, StorageHost};

fn rooted(store: &MemoryStorage, root: [u8; 32]) -> SimpleHashMap<u32> {
    let mut ptr = KeyPtr::from_key(root);
    SimpleHashMap::<u32>::pull_spread(&mut ptr, store)
}

#[test]
fn alice_and_bob_scenario() {
    let mut store = MemoryStorage::new();
    let mut map = rooted(&store, [0u8; 32]);
    map.insert(&mut store, b"alice", 100);
    map.insert(&mut store, b"bob", 50);
    assert_eq!(map.len(), 2);
    assert_eq!(map.get(&store, b"alice"), Some(100));
    map.erase(&mut store, b"alice");
    assert_eq!(map.len(), 1);
    assert_eq!(map.get(&store, b"alice"), None);
    assert_eq!(map.get(&store, b"bob"), Some(50));
}

#[test]
fn overwrite_keeps_length() {
    let mut store = MemoryStorage::new();
    let mut map = rooted(&store, [1u8; 32]);
    map.insert(&mut store, b"alice", 1);
    map.insert(&mut store, b"alice", 2);
    assert_eq!(map.len(), 1);
    assert_eq!(map.get(&store, b"alice"), Some(2));
}

#[test]
fn take_returns_and_removes() {
    let mut store = MemoryStorage::new();
    let mut map = rooted(&store, [2u8; 32]);
    map.insert(&mut store, b"carol", 9);
    assert_eq!(map.take(&mut store, b"carol"), Some(9));
    assert_eq!(map.len(), 0);
    assert_eq!(map.get(&store, b"carol"), None);
    assert_eq!(map.take(&mut store, b"carol"), None);
    assert_eq!(map.len(), 0);
}

#[test]
fn erase_of_absent_key_changes_nothing() {
    let mut store = MemoryStorage::new();
    let mut map = rooted(&store, [3u8; 32]);
    map.insert(&mut store, b"dave", 4);
    map.erase(&mut store, b"erin");
    assert_eq!(map.len(), 1);
    assert_eq!(map.get(&store, b"dave"), Some(4));
}

#[test]
fn length_follows_mixed_operations() {
    let mut store = MemoryStorage::new();
    let mut map = rooted(&store, [4u8; 32]);
    let keys: [&[u8]; 4] = [b"a", b"b", b"c", b"d"];
    for (i, k) in keys.iter().enumerate() {
        map.insert(&mut store, k, i as u32);
    }
    map.erase(&mut store, b"b");
    map.take(&mut store, b"c");
    map.insert(&mut store, b"a", 10);
    map.erase(&mut store, b"zzz");
    let present = keys.iter().filter(|k| map.get(&store, k).is_some()).count();
    assert_eq!(map.len() as usize, present);
    assert_eq!(map.len(), 2);
}

#[test]
fn unrooted_map_holds_nothing() {
    let mut store = MemoryStorage::new();
    let mut map = SimpleHashMap::<u32>::new();
    assert_eq!(map.storage_key(b"alice"), None);
    map.insert(&mut store, b"alice", 100);
    assert_eq!(map.len(), 0);
    assert_eq!(map.get(&store, b"alice"), None);
}

#[test]
fn entries_live_at_derived_addresses() {
    let mut store = MemoryStorage::new();
    let root = [5u8; 32];
    let mut map = rooted(&store, root);
    assert_eq!(map.storage_key(b"alice"), Some(derive_address(&root, b"alice")));
    map.insert(&mut store, b"alice", 100);
    let at = derive_address(&root, b"alice");
    assert_eq!(store.get(&at), Some(vec![100u8, 0, 0, 0]));
}

#[test]
fn spread_round_trip_uses_one_key() {
    let mut store = MemoryStorage::new();
    let root = [6u8; 32];
    let mut map = rooted(&store, root);
    map.insert(&mut store, b"x", 1);
    map.insert(&mut store, b"y", 2);
    let mut push_ptr = KeyPtr::from_key(root);
    map.push_spread(&mut push_ptr, &mut store);
    assert_eq!(store.get(&root), Some(vec![2u8, 0, 0, 0]));
    let mut pull_ptr = KeyPtr::from_key(root);
    let loaded = SimpleHashMap::<u32>::pull_spread(&mut pull_ptr, &store);
    assert_eq!(loaded.len(), 2);
    assert_eq!(loaded.get(&store, b"y"), Some(2));
    let mut after = [0u8; 32];
    after.copy_from_slice(&root);
    after[0] += FOOTPRINT as u8;
    assert_eq!(pull_ptr.advance_by(1), after);
    assert_eq!(push_ptr.advance_by(1), after);
}

#[test]
fn clear_spread_removes_length_cell() {
    let mut store = MemoryStorage::new();
    let root = [9u8; 32];
    let map = rooted(&store, root);
    let mut ptr = KeyPtr::from_key(root);
    map.push_spread(&mut ptr, &mut store);
    assert_eq!(store.get(&root), Some(vec![0u8, 0, 0, 0]));
    let mut ptr = KeyPtr::from_key(root);
    map.clear_spread(&mut ptr, &mut store);
    assert_eq!(store.get(&root), None);
}

#[test]
fn packed_values_round_trip() {
    let mut store = MemoryStorage::new();
    let at = [11u8; 32];
    for v in [0u32, 1, 255, 256, 65_535, 16_777_216, u32::MAX] {
        push_packed(&v, &at, &mut store);
        assert_eq!(pull_packed::<u32, _>(&at, &store), Some(v));
    }
    for b in [true, false] {
        push_packed(&b, &at, &mut store);
        assert_eq!(pull_packed::<bool, _>(&at, &store), Some(b));
    }
    clear_packed(&at, &mut store);
    assert_eq!(pull_packed::<u32, _>(&at, &store), None);
}

#[test]
fn packed_encodings_are_little_endian() {
    assert_eq!(0x0403_0201u32.encode_packed(), vec![1u8, 2, 3, 4]);
    assert_eq!(u32::decode_packed(&[0x44, 0x33, 0x22, 0x11]), Some(0x1122_3344));
    assert_eq!(u32::decode_packed(&[1, 2, 3]), None);
    assert_eq!(true.encode_packed(), vec![1u8]);
    assert_eq!(bool::decode_packed(&[2]), None);
}

#[test]
fn memory_storage_reads_last_write() {
    let mut store = MemoryStorage::new();
    let k = [1u8; 32];
    assert_eq!(store.get(&k), None);
    store.set(&k, &[1, 2]);
    store.set(&k, &[3]);
    assert_eq!(store.get(&k), Some(vec![3u8]));
    store.clear(&k);
    assert_eq!(store.get(&k), None);
}

#[test]
fn take_leaves_an_undecodable_slot_in_place() {
    let mut store = MemoryStorage::new();
    let root = [12u8; 32];
    let mut map = rooted(&store, root);
    map.insert(&mut store, b"kept", 3);
    let at = derive_address(&root, b"junk");
    store.set(&at, &[1, 2]);
    assert_eq!(map.take(&mut store, b"junk"), None);
    assert_eq!(store.get(&at), Some(vec![1u8, 2]));
    assert_eq!(map.len(), 1);
}

#[test]
fn take_after_overwrite_returns_latest() {
    let mut store = MemoryStorage::new();
    let mut map = rooted(&store, [13u8; 32]);
    map.insert(&mut store, b"only", 1);
    map.insert(&mut store, b"only", 2);
    assert_eq!(map.take(&mut store, b"only"), Some(2));
    assert_eq!(map.get(&store, b"only"), None);
}
