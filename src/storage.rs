//! The flat store that storage lives on, and values stored whole at one key.

use crate::key::{append_bytes, le_bytes, le_value, lemma_le_round_trip, lemma_le_value_bound, lemma_pow256_small, pow256, Key};
use vstd::arithmetic::div_mod::lemma_small_mod;
use vstd::prelude::*;

verus! {

/// A value kept whole, in one encoding, at a single storage key.
pub trait PackedValue: Sized {
    /// The bytes that stand for `v` in storage.
    spec fn packed(v: Self) -> Seq<u8>;

    /// The value that `bytes` stand for, if any.
    spec fn unpacked(bytes: Seq<u8>) -> Option<Self>;

    /// Reading back what was written gives the value written.
    proof fn lemma_packed_round_trip(v: Self)
        ensures
            Self::unpacked(Self::packed(v)) == Some(v),
    ;

    fn encode_packed(&self) -> (r: Vec<u8>)
        ensures
            r@ == Self::packed(*self),
    ;

    fn decode_packed(bytes: &[u8]) -> (r: Option<Self>)
        ensures
            r == Self::unpacked(bytes@),
    ;
}

/// Writes the low `len` bytes of `n`, least significant first.
fn le_encode(n: u64, len: usize) -> (r: Vec<u8>)
    ensures
        r@ == le_bytes(n as nat, len as nat),
{
    let mut out: Vec<u8> = Vec::new();
    let mut x: u64 = n;
    let mut i: usize = 0;
    while i < len
        invariant
            i <= len,
            out@ + le_bytes(x as nat, (len - i) as nat) == le_bytes(n as nat, len as nat),
        decreases len - i,
    {
        assert(le_bytes(x as nat, (len - i) as nat) =~= seq![(x % 256) as u8] + le_bytes(
            (x / 256) as nat,
            (len - i - 1) as nat,
        ));
        assert(out@ + seq![(x % 256) as u8] + le_bytes((x / 256) as nat, (len - i - 1) as nat)
            =~= out@ + le_bytes(x as nat, (len - i) as nat));
        out.push((x % 256) as u8);
        x = x / 256;
        i = i + 1;
    }
    assert(le_bytes(x as nat, 0) =~= Seq::<u8>::empty());
    assert(out@ + Seq::<u8>::empty() =~= out@);
    out
}

/// Reads up to eight bytes as a number, least significant first.
fn le_decode(bytes: &[u8]) -> (r: u64)
    requires
        bytes@.len() <= 8,
    ensures
        r as nat == le_value(bytes@),
{
    proof {
        lemma_pow256_small();
    }
    let mut acc: u64 = 0;
    let mut i: usize = bytes.len();
    assert(bytes@.subrange(i as int, bytes@.len() as int) =~= Seq::<u8>::empty());
    while i > 0
        invariant
            i <= bytes@.len() <= 8,
            acc as nat == le_value(bytes@.subrange(i as int, bytes@.len() as int)),
            pow256(1) == 256,
            pow256(2) == 65536,
            pow256(3) == 16777216,
            pow256(4) == 4294967296,
            pow256(5) == 1099511627776,
            pow256(6) == 281474976710656,
            pow256(7) == 72057594037927936,
            pow256(8) == 18446744073709551616,
        decreases i,
    {
        let ghost tail = bytes@.subrange(i as int, bytes@.len() as int);
        let ghost longer = bytes@.subrange(i - 1, bytes@.len() as int);
        proof {
            lemma_le_value_bound(tail);
            assert(longer.drop_first() =~= tail);
            assert(tail.len() <= 7);
            assert(pow256(tail.len()) <= 72057594037927936);
        }
        acc = acc * 256 + bytes[i - 1] as u64;
        i = i - 1;
    }
    assert(bytes@.subrange(0, bytes@.len() as int) =~= bytes@);
    acc
}

impl PackedValue for u32 {
    open spec fn packed(v: u32) -> Seq<u8> {
        le_bytes(v as nat, 4)
    }

    open spec fn unpacked(bytes: Seq<u8>) -> Option<u32> {
        if bytes.len() == 4 {
            Some(le_value(bytes) as u32)
        } else {
            None
        }
    }

    proof fn lemma_packed_round_trip(v: u32) {
        lemma_le_round_trip(v as nat, 4);
        lemma_pow256_small();
        lemma_small_mod(v as nat, pow256(4));
    }

    fn encode_packed(&self) -> (r: Vec<u8>) {
        le_encode(*self as u64, 4)
    }

    fn decode_packed(bytes: &[u8]) -> (r: Option<u32>) {
        if bytes.len() == 4 {
            proof {
                lemma_le_value_bound(bytes@);
                lemma_pow256_small();
            }
            Some(le_decode(bytes) as u32)
        } else {
            None
        }
    }
}

impl PackedValue for bool {
    open spec fn packed(v: bool) -> Seq<u8> {
        if v {
            seq![1u8]
        } else {
            seq![0u8]
        }
    }

    open spec fn unpacked(bytes: Seq<u8>) -> Option<bool> {
        if bytes == seq![1u8] {
            Some(true)
        } else if bytes == seq![0u8] {
            Some(false)
        } else {
            None
        }
    }

    proof fn lemma_packed_round_trip(v: bool) {
        assert(seq![0u8][0] != seq![1u8][0]);
    }

    fn encode_packed(&self) -> (r: Vec<u8>) {
        if *self {
            vec![1u8]
        } else {
            vec![0u8]
        }
    }

    fn decode_packed(bytes: &[u8]) -> (r: Option<bool>) {
        if bytes.len() == 1 && bytes[0] == 1 {
            assert(bytes@ =~= seq![1u8]);
            Some(true)
        } else if bytes.len() == 1 && bytes[0] == 0 {
            assert(bytes@ =~= seq![0u8]);
            Some(false)
        } else {
            None
        }
    }
}

/// What a map holds at `k`, as an option.
pub open spec fn stored_at(contents: Map<Seq<u8>, Seq<u8>>, k: Seq<u8>) -> Option<Seq<u8>> {
    if contents.contains_key(k) {
        Some(contents[k])
    } else {
        None
    }
}

/// The bytes that an optional buffer holds.
pub open spec fn bytes_of(b: Option<Vec<u8>>) -> Option<Seq<u8>> {
    match b {
        Some(v) => Some(v@),
        None => None,
    }
}

/// The flat key-value store of the host: one byte string at each occupied key.
pub trait StorageHost {
    /// What the store holds.
    spec fn contents(&self) -> Map<Seq<u8>, Seq<u8>>;

    /// Reads the bytes at `key`, if any.
    fn get(&self, key: &Key) -> (r: Option<Vec<u8>>)
        ensures
            bytes_of(r) == stored_at(self.contents(), key@),
    ;

    /// Writes `value` at `key`.
    fn set(&mut self, key: &Key, value: &[u8])
        ensures
            final(self).contents() == old(self).contents().insert(key@, value@),
    ;

    /// Removes whatever is at `key`.
    fn clear(&mut self, key: &Key)
        ensures
            final(self).contents() == old(self).contents().remove(key@),
    ;
}

/// What a log of writes and removals leaves at `k`: the last entry for `k` decides.
pub open spec fn log_lookup(log: Seq<(Key, Option<Vec<u8>>)>, k: Seq<u8>) -> Option<Seq<u8>>
    decreases log.len(),
{
    if log.len() == 0 {
        None
    } else if log.last().0@ == k {
        bytes_of(log.last().1)
    } else {
        log_lookup(log.drop_last(), k)
    }
}

/// Copies a byte string into a new buffer.
fn copy_bytes(src: &[u8]) -> (r: Vec<u8>)
    ensures
        r@ == src@,
{
    let mut r: Vec<u8> = Vec::new();
    append_bytes(&mut r, src);
    assert(Seq::<u8>::empty() + src@ =~= src@);
    r
}

/// Compares two keys byte by byte.
fn key_eq(a: &Key, b: &Key) -> (r: bool)
    ensures
        r == (a@ == b@),
{
    let mut i: usize = 0;
    while i < 32
        invariant
            i <= 32,
            forall|j: int| 0 <= j < i ==> a@[j] == b@[j],
        decreases 32 - i,
    {
        if a[i] != b[i] {
            return false;
        }
        i = i + 1;
    }
    assert(a@ =~= b@);
    true
}

/// A store held in memory, as the log of the writes and removals made to it.
pub struct MemoryStorage {
    log: Vec<(Key, Option<Vec<u8>>)>,
}

impl MemoryStorage {
    /// An empty store.
    pub fn new() -> (r: MemoryStorage)
        ensures
            r.contents() == Map::<Seq<u8>, Seq<u8>>::empty(),
    {
        let r = MemoryStorage { log: Vec::new() };
        assert(r.contents() =~= Map::<Seq<u8>, Seq<u8>>::empty());
        r
    }
}

impl StorageHost for MemoryStorage {
    closed spec fn contents(&self) -> Map<Seq<u8>, Seq<u8>> {
        Map::new(|k: Seq<u8>| log_lookup(self.log@, k) is Some, |k: Seq<u8>| log_lookup(self.log@, k).unwrap())
    }

    fn get(&self, key: &Key) -> (r: Option<Vec<u8>>) {
        let mut i: usize = self.log.len();
        assert(self.log@.subrange(0, i as int) =~= self.log@);
        while i > 0
            invariant
                i <= self.log@.len(),
                log_lookup(self.log@, key@) == log_lookup(self.log@.subrange(0, i as int), key@),
            decreases i,
        {
            assert(self.log@.subrange(0, i as int).drop_last() =~= self.log@.subrange(0, i - 1));
            i = i - 1;
            if key_eq(&self.log[i].0, key) {
                return match &self.log[i].1 {
                    Some(v) => Some(copy_bytes(v.as_slice())),
                    None => None,
                };
            }
        }
        None
    }

    fn set(&mut self, key: &Key, value: &[u8]) {
        let ghost before = self.log@;
        self.log.push((*key, Some(copy_bytes(value))));
        assert(self.log@.drop_last() =~= before);
        assert(self.contents() =~= old(self).contents().insert(key@, value@));
    }

    fn clear(&mut self, key: &Key) {
        let ghost before = self.log@;
        self.log.push((*key, None));
        assert(self.log@.drop_last() =~= before);
        assert(self.contents() =~= old(self).contents().remove(key@));
    }
}

} // verus!
