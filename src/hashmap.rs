//! A map from logical keys to packed values, laid over the flat store: each
//! entry lives at an address hashed from the map's root key and the encoding
//! of the logical key.

use crate::key::{address_of, derive_address, key_at, Key, KeyPtr};
use crate::storage::{stored_at, PackedValue, StorageHost};
use core::marker::PhantomData;
use vstd::prelude::*;

verus! {

/// The number of keys that the map's spread form occupies: its length cell.
pub const FOOTPRINT: u64 = 1;

/// The value that `bytes`, if present, stand for.
pub open spec fn decoded<V: PackedValue>(bytes: Option<Seq<u8>>) -> Option<V> {
    match bytes {
        Some(b) => V::unpacked(b),
        None => None,
    }
}

/// Writes the packed encoding of `value` at `at`.
pub fn push_packed<V: PackedValue, S: StorageHost>(value: &V, at: &Key, store: &mut S)
    ensures
        final(store).contents() == old(store).contents().insert(at@, V::packed(*value)),
{
    let bytes = value.encode_packed();
    store.set(at, bytes.as_slice());
}

/// Reads the value packed at `at`; `None` where nothing, or nothing that
/// decodes, is stored there.
pub fn pull_packed<V: PackedValue, S: StorageHost>(at: &Key, store: &S) -> (r: Option<V>)
    ensures
        r == decoded::<V>(stored_at(store.contents(), at@)),
{
    match store.get(at) {
        Some(bytes) => V::decode_packed(bytes.as_slice()),
        None => None,
    }
}

/// Removes the packed value at `at`.
pub fn clear_packed<S: StorageHost>(at: &Key, store: &mut S)
    ensures
        final(store).contents() == old(store).contents().remove(at@),
{
    store.clear(at);
}

/// What was pushed at a key is what is pulled from it.
pub proof fn lemma_packed_round_trip<V: PackedValue>(
    contents: Map<Seq<u8>, Seq<u8>>,
    at: Seq<u8>,
    v: V,
)
    ensures
        decoded::<V>(stored_at(contents.insert(at, V::packed(v)), at)) == Some(v),
{
    V::lemma_packed_round_trip(v);
}

/// The value that the map rooted at `root` holds for `k`, read from `contents`.
pub open spec fn entry_value<V: PackedValue>(
    root: Option<Seq<u8>>,
    contents: Map<Seq<u8>, Seq<u8>>,
    k: Seq<u8>,
) -> Option<V> {
    match root {
        Some(r) => decoded::<V>(stored_at(contents, address_of(r, k))),
        None => None,
    }
}

/// The length after inserting `k`: one more where the map is rooted and `k` was absent.
pub open spec fn count_after_insert<V: PackedValue>(
    root: Option<Seq<u8>>,
    count: nat,
    contents: Map<Seq<u8>, Seq<u8>>,
    k: Seq<u8>,
) -> nat {
    if root is Some && entry_value::<V>(root, contents, k) is None {
        count + 1
    } else {
        count
    }
}

/// The store after inserting `v` at `k`: its packed form at the entry's address.
pub open spec fn contents_after_insert<V: PackedValue>(
    root: Option<Seq<u8>>,
    contents: Map<Seq<u8>, Seq<u8>>,
    k: Seq<u8>,
    v: V,
) -> Map<Seq<u8>, Seq<u8>> {
    match root {
        Some(r) => contents.insert(address_of(r, k), V::packed(v)),
        None => contents,
    }
}

/// The length after removing `k`: one less where `k` was present (never below zero).
pub open spec fn count_after_remove<V: PackedValue>(
    root: Option<Seq<u8>>,
    count: nat,
    contents: Map<Seq<u8>, Seq<u8>>,
    k: Seq<u8>,
) -> nat {
    if entry_value::<V>(root, contents, k) is Some && count > 0 {
        (count - 1) as nat
    } else {
        count
    }
}

/// The store after erasing `k`: the entry's slot cleared where `k` was present.
pub open spec fn contents_after_erase<V: PackedValue>(
    root: Option<Seq<u8>>,
    contents: Map<Seq<u8>, Seq<u8>>,
    k: Seq<u8>,
) -> Map<Seq<u8>, Seq<u8>> {
    match root {
        Some(r) => if entry_value::<V>(root, contents, k) is Some {
            contents.remove(address_of(r, k))
        } else {
            contents
        },
        None => contents,
    }
}

/// The number held in a length cell: zero where the cell is empty or does not decode.
pub open spec fn stored_len(bytes: Option<Seq<u8>>) -> u32 {
    match decoded::<u32>(bytes) {
        Some(n) => n,
        None => 0,
    }
}

/// A map from logical keys to values, stored entry by entry on the flat store.
/// Its methods take each logical key in its encoded form, so keys of any
/// type, once encoded, get the same addresses.
pub struct SimpleHashMap<V> {
    key: Option<Key>,
    len: u32,
    value_phantom: PhantomData<V>,
}

impl<V: PackedValue> SimpleHashMap<V> {
    /// The root key that entry addresses are derived from, once assigned.
    pub closed spec fn root(&self) -> Option<Seq<u8>> {
        match self.key {
            Some(k) => Some(k@),
            None => None,
        }
    }

    /// The number of entries that the map counts.
    pub closed spec fn count(&self) -> nat {
        self.len as nat
    }

    /// Creates a map with no root key yet.
    pub fn new() -> (r: Self)
        ensures
            r.root() is None,
            r.count() == 0,
    {
        SimpleHashMap { key: None, len: 0, value_phantom: PhantomData }
    }

    /// Returns the number of entries.
    pub fn len(&self) -> (r: u32)
        ensures
            r as nat == self.count(),
    {
        self.len
    }

    /// Returns the storage address of the entry for `key` (a logical key in
    /// its encoded form), once the map has a root.
    pub fn storage_key(&self, key: &[u8]) -> (r: Option<Key>)
        ensures
            self.root() is None ==> r is None,
            self.root() matches Some(root) ==> (r matches Some(a) && a@ == address_of(root, key@)),
    {
        match &self.key {
            Some(root) => Some(derive_address(root, key)),
            None => None,
        }
    }

    /// Returns the value stored for `key`.
    pub fn get<S: StorageHost>(&self, store: &S, key: &[u8]) -> (r: Option<V>)
        ensures
            r == entry_value::<V>(self.root(), store.contents(), key@),
    {
        match self.storage_key(key) {
            Some(at) => pull_packed(&at, store),
            None => None,
        }
    }

    /// Stores `value` for `key`, counting `key` where it was absent. A map
    /// without a root key stays as it is.
    pub fn insert<S: StorageHost>(&mut self, store: &mut S, key: &[u8], value: V)
        requires
            old(self).count() < u32::MAX || entry_value::<V>(
                old(self).root(),
                old(store).contents(),
                key@,
            ) is Some,
        ensures
            final(self).root() == old(self).root(),
            final(self).count() == count_after_insert::<V>(
                old(self).root(),
                old(self).count(),
                old(store).contents(),
                key@,
            ),
            final(store).contents() == contents_after_insert::<V>(
                old(self).root(),
                old(store).contents(),
                key@,
                value,
            ),
    {
        if let Some(at) = self.storage_key(key) {
            if pull_packed::<V, S>(&at, store).is_none() {
                self.len = self.len + 1;
            }
            push_packed(&value, &at, store);
        }
    }

    /// Removes the entry for `key`, where there is one.
    pub fn erase<S: StorageHost>(&mut self, store: &mut S, key: &[u8])
        ensures
            final(self).root() == old(self).root(),
            final(self).count() == count_after_remove::<V>(
                old(self).root(),
                old(self).count(),
                old(store).contents(),
                key@,
            ),
            final(store).contents() == contents_after_erase::<V>(
                old(self).root(),
                old(store).contents(),
                key@,
            ),
    {
        if let Some(at) = self.storage_key(key) {
            if pull_packed::<V, S>(&at, store).is_some() {
                if self.len > 0 {
                    self.len = self.len - 1;
                }
                clear_packed(&at, store);
            }
        }
    }

    /// Removes the entry for `key` and returns its value: a read followed by
    /// an erase.
    pub fn take<S: StorageHost>(&mut self, store: &mut S, key: &[u8]) -> (r: Option<V>)
        ensures
            r == entry_value::<V>(old(self).root(), old(store).contents(), key@),
            final(self).root() == old(self).root(),
            final(self).count() == count_after_remove::<V>(
                old(self).root(),
                old(self).count(),
                old(store).contents(),
                key@,
            ),
            final(store).contents() == contents_after_erase::<V>(
                old(self).root(),
                old(store).contents(),
                key@,
            ),
    {
        let mut value: Option<V> = None;
        if let Some(at) = self.storage_key(key) {
            value = pull_packed(&at, store);
            if value.is_some() {
                if self.len > 0 {
                    self.len = self.len - 1;
                }
                clear_packed(&at, store);
            }
        }
        value
    }

    /// Loads the map from its spread form: the cursor's next key becomes the
    /// root, and the length is read from the cell there.
    pub fn pull_spread<S: StorageHost>(ptr: &mut KeyPtr, store: &S) -> (r: Self)
        requires
            old(ptr).wf(),
        ensures
            final(ptr).wf(),
            final(ptr).base() == old(ptr).base(),
            final(ptr).position() == old(ptr).position() + FOOTPRINT,
            r.root() == Some(key_at(old(ptr).base(), old(ptr).position())),
            r.count() == stored_len(
                stored_at(store.contents(), key_at(old(ptr).base(), old(ptr).position())),
            ),
    {
        let root = ptr.next_for(FOOTPRINT);
        let len = match pull_packed::<u32, S>(&root, store) {
            Some(n) => n,
            None => 0,
        };
        SimpleHashMap { key: Some(root), len, value_phantom: PhantomData }
    }

    /// Stores the map's spread form: its length, in the cell at the cursor's next key.
    pub fn push_spread<S: StorageHost>(&self, ptr: &mut KeyPtr, store: &mut S)
        requires
            old(ptr).wf(),
        ensures
            final(ptr).wf(),
            final(ptr).base() == old(ptr).base(),
            final(ptr).position() == old(ptr).position() + FOOTPRINT,
            final(store).contents() == old(store).contents().insert(
                key_at(old(ptr).base(), old(ptr).position()),
                u32::packed(self.count() as u32),
            ),
    {
        let at = ptr.next_for(FOOTPRINT);
        push_packed(&self.len, &at, store);
    }

    /// Clears the map's spread form: the length cell at the cursor's next key.
    pub fn clear_spread<S: StorageHost>(&self, ptr: &mut KeyPtr, store: &mut S)
        requires
            old(ptr).wf(),
        ensures
            final(ptr).wf(),
            final(ptr).base() == old(ptr).base(),
            final(ptr).position() == old(ptr).position() + FOOTPRINT,
            final(store).contents() == old(store).contents().remove(
                key_at(old(ptr).base(), old(ptr).position()),
            ),
    {
        let at = ptr.next_for(FOOTPRINT);
        clear_packed(&at, store);
    }
}

/// A rooted map reads back the value last inserted for a key.
pub proof fn lemma_get_after_insert<V: PackedValue>(
    root: Seq<u8>,
    contents: Map<Seq<u8>, Seq<u8>>,
    k: Seq<u8>,
    v: V,
)
    ensures
        entry_value::<V>(Some(root), contents_after_insert::<V>(Some(root), contents, k, v), k)
            == Some(v),
{
    V::lemma_packed_round_trip(v);
}

/// Distinct logical keys get distinct addresses under `root`.
pub open spec fn addresses_distinct(root: Seq<u8>) -> bool {
    forall|k1: Seq<u8>, k2: Seq<u8>|
        #![trigger address_of(root, k1), address_of(root, k2)]
        address_of(root, k1) == address_of(root, k2) ==> k1 == k2
}

/// The count `count` is the number of logical keys in `present`, and these
/// are exactly the keys for which the map rooted at `root` reads a value.
pub open spec fn counts_present<V: PackedValue>(
    root: Option<Seq<u8>>,
    count: nat,
    contents: Map<Seq<u8>, Seq<u8>>,
    present: Set<Seq<u8>>,
) -> bool {
    &&& present.finite()
    &&& count == present.len()
    &&& forall|k: Seq<u8>| #[trigger] present.contains(k) <==> entry_value::<V>(root, contents, k) is Some
}

/// Insertion keeps the length equal to the number of keys with a value,
/// where distinct logical keys have distinct addresses.
pub proof fn lemma_insert_keeps_count<V: PackedValue>(
    root: Option<Seq<u8>>,
    count: nat,
    contents: Map<Seq<u8>, Seq<u8>>,
    present: Set<Seq<u8>>,
    k: Seq<u8>,
    v: V,
)
    requires
        counts_present::<V>(root, count, contents, present),
        root matches Some(r) ==> addresses_distinct(r),
    ensures
        root is Some ==> counts_present::<V>(
            root,
            count_after_insert::<V>(root, count, contents, k),
            contents_after_insert::<V>(root, contents, k, v),
            present.insert(k),
        ),
        root is None ==> counts_present::<V>(
            root,
            count_after_insert::<V>(root, count, contents, k),
            contents_after_insert::<V>(root, contents, k, v),
            present,
        ),
{
    if let Some(r) = root {
        let c2 = contents_after_insert::<V>(root, contents, k, v);
        V::lemma_packed_round_trip(v);
        assert forall|k2: Seq<u8>| #[trigger]
            present.insert(k).contains(k2) <==> entry_value::<V>(root, c2, k2) is Some by {
            if k2 != k {
                assert(address_of(r, k2) != address_of(r, k));
            }
        }
        if present.contains(k) {
            assert(present.insert(k) =~= present);
        }
    }
}

/// Erasing keeps the length equal to the number of keys with a value, where
/// distinct logical keys have distinct addresses. Taking changes the length
/// and the store as erasing does.
pub proof fn lemma_erase_keeps_count<V: PackedValue>(
    root: Option<Seq<u8>>,
    count: nat,
    contents: Map<Seq<u8>, Seq<u8>>,
    present: Set<Seq<u8>>,
    k: Seq<u8>,
)
    requires
        counts_present::<V>(root, count, contents, present),
        root matches Some(r) ==> addresses_distinct(r),
    ensures
        counts_present::<V>(
            root,
            count_after_remove::<V>(root, count, contents, k),
            contents_after_erase::<V>(root, contents, k),
            present.remove(k),
        ),
{
    if let Some(r) = root {
        let c2 = contents_after_erase::<V>(root, contents, k);
        if present.contains(k) {
            assert forall|k2: Seq<u8>| #[trigger]
                present.remove(k).contains(k2) <==> entry_value::<V>(root, c2, k2) is Some by {
                if k2 != k {
                    assert(address_of(r, k2) != address_of(r, k));
                }
            }
        } else {
            assert(present.remove(k) =~= present);
        }
    } else {
        assert(present.remove(k) =~= present);
    }
}

/// One change made to a map through its methods.
pub enum MapOp<V> {
    Insert(Seq<u8>, V),
    Erase(Seq<u8>),
    Take(Seq<u8>),
}

/// The length and the store after `op`, as the map's methods leave them.
pub open spec fn apply_op<V: PackedValue>(
    root: Option<Seq<u8>>,
    count: nat,
    contents: Map<Seq<u8>, Seq<u8>>,
    op: MapOp<V>,
) -> (nat, Map<Seq<u8>, Seq<u8>>) {
    match op {
        MapOp::Insert(k, v) => (
            count_after_insert::<V>(root, count, contents, k),
            contents_after_insert::<V>(root, contents, k, v),
        ),
        MapOp::Erase(k) => (
            count_after_remove::<V>(root, count, contents, k),
            contents_after_erase::<V>(root, contents, k),
        ),
        MapOp::Take(k) => (
            count_after_remove::<V>(root, count, contents, k),
            contents_after_erase::<V>(root, contents, k),
        ),
    }
}

/// The length and the store after each of `ops` in turn.
pub open spec fn apply_ops<V: PackedValue>(
    root: Option<Seq<u8>>,
    count: nat,
    contents: Map<Seq<u8>, Seq<u8>>,
    ops: Seq<MapOp<V>>,
) -> (nat, Map<Seq<u8>, Seq<u8>>)
    decreases ops.len(),
{
    if ops.len() == 0 {
        (count, contents)
    } else {
        let (c1, s1) = apply_ops::<V>(root, count, contents, ops.drop_last());
        apply_op::<V>(root, c1, s1, ops.last())
    }
}

/// The logical keys with a value after `op`, where `present` had one before.
pub open spec fn present_after_op<V>(
    root: Option<Seq<u8>>,
    present: Set<Seq<u8>>,
    op: MapOp<V>,
) -> Set<Seq<u8>> {
    match op {
        MapOp::Insert(k, _) => if root is Some {
            present.insert(k)
        } else {
            present
        },
        MapOp::Erase(k) => present.remove(k),
        MapOp::Take(k) => present.remove(k),
    }
}

/// The logical keys with a value after each of `ops` in turn.
pub open spec fn present_after_ops<V>(
    root: Option<Seq<u8>>,
    present: Set<Seq<u8>>,
    ops: Seq<MapOp<V>>,
) -> Set<Seq<u8>>
    decreases ops.len(),
{
    if ops.len() == 0 {
        present
    } else {
        present_after_op(root, present_after_ops(root, present, ops.drop_last()), ops.last())
    }
}

/// After any sequence of insertions, erasures and takes, the map's length is
/// the number of logical keys for which it reads a value, where it was so
/// before and distinct logical keys have distinct addresses.
pub proof fn lemma_len_counts_present<V: PackedValue>(
    root: Option<Seq<u8>>,
    count: nat,
    contents: Map<Seq<u8>, Seq<u8>>,
    present: Set<Seq<u8>>,
    ops: Seq<MapOp<V>>,
)
    requires
        counts_present::<V>(root, count, contents, present),
        root matches Some(r) ==> addresses_distinct(r),
    ensures
        counts_present::<V>(
            root,
            apply_ops::<V>(root, count, contents, ops).0,
            apply_ops::<V>(root, count, contents, ops).1,
            present_after_ops(root, present, ops),
        ),
    decreases ops.len(),
{
    if ops.len() > 0 {
        lemma_len_counts_present::<V>(root, count, contents, present, ops.drop_last());
        let (c1, s1) = apply_ops::<V>(root, count, contents, ops.drop_last());
        let p1 = present_after_ops(root, present, ops.drop_last());
        match ops.last() {
            MapOp::Insert(k, v) => lemma_insert_keeps_count::<V>(root, c1, s1, p1, k, v),
            MapOp::Erase(k) => lemma_erase_keeps_count::<V>(root, c1, s1, p1, k),
            MapOp::Take(k) => lemma_erase_keeps_count::<V>(root, c1, s1, p1, k),
        }
    }
}

} // verus!
