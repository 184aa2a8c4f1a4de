//! Storage keys, the cursor that walks them, and the hashed address of a map entry.

use ink_env::hash::Blake2x256;
use vstd::arithmetic::div_mod::{
    lemma_add_mod_noop_right, lemma_fundamental_div_mod_converse, lemma_mod_breakdown, lemma_small_mod,
};
use vstd::prelude::*;

verus! {

/// A 32-byte identifier of one slot of the flat store.
pub type Key = [u8; 32];

/// `256` to the power `n`.
pub open spec fn pow256(n: nat) -> nat
    decreases n,
{
    if n == 0 {
        1
    } else {
        256 * pow256((n - 1) as nat)
    }
}

/// The number that a byte string stands for, least significant byte first.
pub open spec fn le_value(s: Seq<u8>) -> nat
    decreases s.len(),
{
    if s.len() == 0 {
        0
    } else {
        s[0] as nat + 256 * le_value(s.drop_first())
    }
}

/// The number of distinct keys; key arithmetic wraps around at this value.
pub open spec fn key_space() -> nat {
    pow256(32)
}

/// The `len` bytes of `n`, least significant first (`n` taken modulo `256^len`).
pub open spec fn le_bytes(n: nat, len: nat) -> Seq<u8>
    decreases len,
{
    if len == 0 {
        Seq::empty()
    } else {
        seq![(n % 256) as u8] + le_bytes(n / 256, (len - 1) as nat)
    }
}

/// The key `offset` steps after `base`.
pub open spec fn key_at(base: Seq<u8>, offset: nat) -> Seq<u8> {
    le_bytes(((le_value(base) + offset) % key_space()) as nat, 32)
}

/// The powers of 256 that fit in 64 bits, and the next.
pub proof fn lemma_pow256_small()
    ensures
        pow256(0) == 1,
        pow256(1) == 256,
        pow256(2) == 65536,
        pow256(3) == 16777216,
        pow256(4) == 4294967296,
        pow256(5) == 1099511627776,
        pow256(6) == 281474976710656,
        pow256(7) == 72057594037927936,
        pow256(8) == 18446744073709551616,
{
    assert(pow256(0) == 1);
    assert(pow256(1) == 256);
    assert(pow256(2) == 65536);
    assert(pow256(3) == 16777216);
    assert(pow256(4) == 4294967296);
    assert(pow256(5) == 1099511627776);
    assert(pow256(6) == 281474976710656);
    assert(pow256(7) == 72057594037927936);
    assert(pow256(8) == 18446744073709551616);
}

pub proof fn lemma_pow256_positive(n: nat)
    ensures
        pow256(n) > 0,
    decreases n,
{
    if n > 0 {
        lemma_pow256_positive((n - 1) as nat);
    }
}

pub proof fn lemma_le_value_bound(s: Seq<u8>)
    ensures
        le_value(s) < pow256(s.len()),
    decreases s.len(),
{
    if s.len() > 0 {
        lemma_le_value_bound(s.drop_first());
    }
}

/// Reading back the bytes of `n` gives `n` modulo `256^len`.
pub proof fn lemma_le_round_trip(n: nat, len: nat)
    ensures
        le_bytes(n, len).len() == len,
        le_value(le_bytes(n, len)) == n % pow256(len),
    decreases len,
{
    if len == 0 {
        assert(n % 1 == 0) by (nonlinear_arith);
    } else {
        let s = le_bytes(n, len);
        lemma_le_round_trip(n / 256, (len - 1) as nat);
        assert(s.drop_first() =~= le_bytes(n / 256, (len - 1) as nat));
        lemma_pow256_positive((len - 1) as nat);
        lemma_mod_breakdown(n as int, 256, pow256((len - 1) as nat) as int);
    }
}

/// The bytes of a byte string's value are that string.
pub proof fn lemma_le_bytes_of_value(s: Seq<u8>)
    ensures
        le_bytes(le_value(s), s.len()) == s,
    decreases s.len(),
{
    if s.len() > 0 {
        let v = le_value(s);
        let rest = s.drop_first();
        lemma_le_bytes_of_value(rest);
        assert(v % 256 == s[0] as nat && v / 256 == le_value(rest)) by (nonlinear_arith)
            requires
                v == s[0] as nat + 256 * le_value(rest),
                s[0] < 256,
        ;
        assert(le_bytes(v, s.len()) =~= s);
    }
}

/// Appending a byte adds it at the weight of its position.
pub proof fn lemma_le_value_push(s: Seq<u8>, b: u8)
    ensures
        le_value(s.push(b)) == le_value(s) + pow256(s.len()) * b,
    decreases s.len(),
{
    if s.len() > 0 {
        lemma_le_value_push(s.drop_first(), b);
        assert(s.push(b).drop_first() =~= s.drop_first().push(b));
        assert(s.push(b)[0] == s[0]);
        let a = le_value(s.drop_first());
        let p = pow256((s.len() - 1) as nat);
        assert(256 * (a + p * b) == 256 * a + (256 * p) * b) by (nonlinear_arith);
    } else {
        assert(s.push(b).drop_first() =~= Seq::<u8>::empty());
        assert(le_value(Seq::<u8>::empty()) == 0);
        assert(pow256(0) == 1);
    }
}

/// Adds `n` to a key read as a little-endian 256-bit number, wrapping around.
pub fn key_add(key: &Key, n: u64) -> (r: Key)
    ensures
        le_value(r@) == (le_value(key@) + n as nat) % key_space(),
{
    let mut out: Key = [0u8; 32];
    let mut carry: u128 = n as u128;
    let mut i: usize = 0;
    assert(out@.subrange(0, 0) =~= Seq::<u8>::empty());
    assert(key@.subrange(0, 0) =~= Seq::<u8>::empty());
    assert(le_value(Seq::<u8>::empty()) == 0);
    assert(pow256(0) == 1);
    while i < 32
        invariant
            i <= 32,
            carry < 18446744073709551616,
            le_value(out@.subrange(0, i as int)) + pow256(i as nat) * carry == le_value(
                key@.subrange(0, i as int),
            ) + n,
        decreases 32 - i,
    {
        let sum: u128 = key[i] as u128 + carry;
        let ghost before = out@.subrange(0, i as int);
        let ghost p = pow256(i as nat);
        out[i] = (sum % 256) as u8;
        proof {
            assert(out@.subrange(0, i + 1) =~= before.push((sum % 256) as u8));
            assert(key@.subrange(0, i + 1) =~= key@.subrange(0, i as int).push(key@[i as int]));
            lemma_le_value_push(before, (sum % 256) as u8);
            lemma_le_value_push(key@.subrange(0, i as int), key@[i as int]);
            assert(pow256((i + 1) as nat) == 256 * p);
            let k = key@[i as int] as int;
            assert(p * (sum % 256) + (256 * p) * (sum / 256) == p * k + p * carry) by (nonlinear_arith)
                requires
                    sum == 256 * (sum / 256) + sum % 256,
                    sum == k + carry,
            ;
        }
        carry = sum / 256;
        i = i + 1;
    }
    proof {
        assert(out@.subrange(0, 32) =~= out@);
        assert(key@.subrange(0, 32) =~= key@);
        lemma_le_value_bound(out@);
        lemma_pow256_positive(32);
        assert(le_value(key@) + n == carry * key_space() + le_value(out@)) by (nonlinear_arith)
            requires
                le_value(out@) + key_space() * carry == le_value(key@) + n,
        ;
        lemma_fundamental_div_mod_converse(
            (le_value(key@) + n) as int,
            key_space() as int,
            carry as int,
            le_value(out@) as int,
        );
    }
    out
}

/// Cursor over storage keys: starting at a base key, each step hands out the
/// key at the current offset and moves the offset on by a footprint.
pub struct KeyPtr {
    key: Key,
    last_shift: u64,
    base: Ghost<Seq<u8>>,
    consumed: Ghost<nat>,
}

impl KeyPtr {
    /// The base key of the walk.
    pub closed spec fn base(&self) -> Seq<u8> {
        self.base@
    }

    /// How many keys lie before the cursor's current position.
    pub closed spec fn position(&self) -> nat {
        self.consumed@ + self.last_shift as nat
    }

    /// The key handed out by the last step.
    pub closed spec fn current(&self) -> Seq<u8> {
        self.key@
    }

    /// The cursor's key lies `consumed` steps after its base.
    pub closed spec fn wf(&self) -> bool {
        &&& self.base@.len() == 32
        &&& le_value(self.key@) == (le_value(self.base@) + self.consumed@) % key_space()
    }

    /// Starts a walk at `key`.
    pub fn from_key(key: Key) -> (r: KeyPtr)
        ensures
            r.wf(),
            r.base() == key@,
            r.position() == 0,
    {
        proof {
            let v = le_value(key@);
            lemma_le_value_bound(key@);
            lemma_pow256_positive(32);
            lemma_small_mod(v, key_space());
        }
        KeyPtr { key, last_shift: 0, base: Ghost(key@), consumed: Ghost(0) }
    }

    /// Hands out the key at the current position and reserves `footprint`
    /// keys from it on; the next step starts after them.
    pub fn advance_by(&mut self, footprint: u64) -> (r: Key)
        requires
            old(self).wf(),
        ensures
            final(self).wf(),
            final(self).base() == old(self).base(),
            final(self).position() == old(self).position() + footprint as nat,
            final(self).current() == r@,
            r@ == key_at(old(self).base(), old(self).position()),
    {
        let k = key_add(&self.key, self.last_shift);
        proof {
            lemma_pow256_positive(32);
            lemma_add_mod_noop_right(
                self.last_shift as int,
                (le_value(self.base@) + self.consumed@) as int,
                key_space() as int,
            );
            lemma_le_bytes_of_value(k@);
        }
        self.key = k;
        self.consumed = Ghost(self.consumed@ + self.last_shift as nat);
        self.last_shift = footprint;
        k
    }

    /// Hands out the next key for a value that occupies `footprint` keys.
    pub fn next_for(&mut self, footprint: u64) -> (r: Key)
        requires
            old(self).wf(),
        ensures
            final(self).wf(),
            final(self).base() == old(self).base(),
            final(self).position() == old(self).position() + footprint as nat,
            r@ == key_at(old(self).base(), old(self).position()),
    {
        self.advance_by(footprint)
    }
}

/// The BLAKE2 256-bit digest of a byte string.
pub uninterp spec fn blake2x256_of(input: Seq<u8>) -> Seq<u8>;

/// Relies on `ink_env::hash_bytes::<Blake2x256>`: the digest depends on the input alone.
#[verifier::external_body]
pub(crate) fn blake2x256(input: &[u8]) -> (r: [u8; 32])
    ensures
        r@ == blake2x256_of(input@),
{
    let mut output = [0u8; 32];
    ink_env::hash_bytes::<Blake2x256>(input, &mut output);
    output
}

/// Domain prefix that keeps map addresses apart from other hashed pairs of
/// a root key and a value: the ASCII text `ink simplehashmap`.
pub const PREFIX: [u8; 17] = [
    105, 110, 107, 32, 115, 105, 109, 112, 108, 101, 104, 97, 115, 104, 109, 97, 112,
];

/// The address of the entry whose logical key is encoded as `encoded_key`, in
/// a map rooted at `root`: the digest of the prefix, the root and the digest
/// of the encoded key.
pub open spec fn address_of(root: Seq<u8>, encoded_key: Seq<u8>) -> Seq<u8> {
    blake2x256_of(PREFIX@ + root + blake2x256_of(encoded_key))
}

/// Appends the bytes of `src` to `buf`.
pub(crate) fn append_bytes(buf: &mut Vec<u8>, src: &[u8])
    ensures
        final(buf)@ == old(buf)@ + src@,
{
    let mut i: usize = 0;
    while i < src.len()
        invariant
            i <= src@.len(),
            buf@ == old(buf)@ + src@.subrange(0, i as int),
        decreases src@.len() - i,
    {
        buf.push(src[i]);
        i = i + 1;
        assert(src@.subrange(0, i as int) =~= src@.subrange(0, i - 1) + seq![src@[i - 1]]);
    }
    assert(src@.subrange(0, i as int) =~= src@);
}

/// Derives the storage address of the entry under `root` whose logical key
/// is encoded as `encoded_key`.
pub fn derive_address(root: &Key, encoded_key: &[u8]) -> (r: Key)
    ensures
        r@ == address_of(root@, encoded_key@),
{
    let key_hash = blake2x256(encoded_key);
    let mut buf: Vec<u8> = Vec::new();
    append_bytes(&mut buf, &PREFIX);
    append_bytes(&mut buf, root);
    append_bytes(&mut buf, &key_hash);
    blake2x256(buf.as_slice())
}

/// Deriving an address is deterministic: equal roots and logical keys give
/// equal addresses.
pub proof fn lemma_address_deterministic(
    root1: Seq<u8>,
    key1: Seq<u8>,
    root2: Seq<u8>,
    key2: Seq<u8>,
)
    requires
        root1 == root2,
        key1 == key2,
    ensures
        address_of(root1, key1) == address_of(root2, key2),
{
}

} // verus!
