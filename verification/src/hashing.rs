//! Devnet hashing: a 256-bit digest assembled from four domain-separated
//! SipHash lanes of the standard library's `DefaultHasher`, the byte
//! encodings that feed it, and the binary Merkle root over leaf hashes.

use std::collections::hash_map::DefaultHasher;
use std::hash::Hasher;
use vstd::std_specs::hash::DefaultHasherAdditionalSpecFns;
use vstd::bytes::spec_u64_to_le_bytes;
use vstd::bytes::u64_to_le_bytes;
use vstd::prelude::*;
use vstd::string::*;
use crate::text::{hex_chars, push_hex};
use vstd::utf8::encode_utf8;

verus! {

pub type Hash256 = [u8; 32];

pub const ZERO_HASH: Hash256 = [0, 0, 0, 0, 0, 0, 0, 0, 0, 0, 0, 0, 0, 0, 0, 0, 0, 0, 0, 0, 0, 0, 0, 0, 0, 0, 0, 0, 0, 0, 0, 0];


/// The all-zero hash, as a sequence of bytes.
pub open spec fn zero_hash_bytes() -> Seq<u8> {
    Seq::new(32, |i: int| 0u8)
}

/// The value of [`ZERO_HASH`].
pub proof fn lemma_zero_hash()
    ensures
        ZERO_HASH@ == zero_hash_bytes(),
{
    assert(ZERO_HASH@ =~= zero_hash_bytes());
}

// ── The 256-bit devnet digest ────────────────────────────────────────────

/// Little-endian bytes of `x`.
pub open spec fn le64(x: u64) -> Seq<u8> {
    spec_u64_to_le_bytes(x)
}

/// One 64-bit lane: what a fresh `DefaultHasher` finishes with after the
/// domain number and then the encoding were written into it.
pub open spec fn dev_lane(domain: u64, encoding: Seq<u8>) -> u64 {
    DefaultHasher::spec_finish(seq![le64(domain), encoding])
}

/// The devnet digest of an encoded value: four lanes, for domains 0 to 3,
/// each stored little-endian, lane 0 first.
pub open spec fn dev_hash_spec(encoding: Seq<u8>) -> Seq<u8> {
    le64(dev_lane(0, encoding)) + le64(dev_lane(1, encoding)) + le64(dev_lane(2, encoding))
        + le64(dev_lane(3, encoding))
}

proof fn lemma_le64_len(x: u64)
    ensures
        le64(x).len() == 8,
{
    vstd::bytes::lemma_auto_spec_u64_to_from_le_bytes();
}

fn lane(domain: u64, encoding: &[u8]) -> (r: u64)
    ensures
        r == dev_lane(domain, encoding@),
{
    let mut h = DefaultHasher::new();
    let d = u64_to_le_bytes(domain);
    h.write(d.as_slice());
    h.write(encoding);
    let r = h.finish();
    assert(seq![le64(domain), encoding@] =~= Seq::<Seq<u8>>::empty().push(d@).push(encoding@));
    r
}

/// Hashes an encoded value (see the `enc_*` functions) into 32 bytes.
pub fn dev_hash(encoding: &[u8]) -> (out: Hash256)
    ensures
        out@ == dev_hash_spec(encoding@),
{
    let mut out: Hash256 = ZERO_HASH;
    let ghost enc = encoding@;
    proof {
        lemma_le64_len(dev_lane(0, enc));
        lemma_le64_len(dev_lane(1, enc));
        lemma_le64_len(dev_lane(2, enc));
        lemma_le64_len(dev_lane(3, enc));
    }
    let mut domain: u64 = 0;
    while domain < 4
        invariant
            domain <= 4,
            enc == encoding@,
            out@.len() == 32,
            forall|i: int|
                0 <= i < 8 * domain ==> out@[i] == #[trigger] dev_hash_spec(enc)[i],
            dev_hash_spec(enc).len() == 32,
            forall|d: u64| d < 4 ==> (#[trigger] le64(dev_lane(d, enc))).len() == 8,
        decreases 4 - domain,
    {
        let bytes = u64_to_le_bytes(lane(domain, encoding));
        let mut j: usize = 0;
        while j < 8
            invariant
                j <= 8,
                domain < 4,
                enc == encoding@,
                out@.len() == 32,
                bytes@ == le64(dev_lane(domain, enc)),
                bytes@.len() == 8,
                dev_hash_spec(enc).len() == 32,
                forall|d: u64| d < 4 ==> (#[trigger] le64(dev_lane(d, enc))).len() == 8,
                forall|i: int|
                    0 <= i < 8 * domain + j ==> out@[i] == #[trigger] dev_hash_spec(enc)[i],
            decreases 8 - j,
        {
            let pos = (8 * domain as usize) + j;
            out[pos] = bytes[j];
            assert(dev_hash_spec(enc)[pos as int] == bytes@[j as int]) by {
                assert(le64(dev_lane(0, enc)).len() == 8);
                assert(le64(dev_lane(1, enc)).len() == 8);
                assert(le64(dev_lane(2, enc)).len() == 8);
                assert(le64(dev_lane(3, enc)).len() == 8);
            }
            j = j + 1;
        }
        domain = domain + 1;
    }
    assert(out@ =~= dev_hash_spec(enc));
    out
}


// ── Encodings fed to the digest ──────────────────────────────────────────

/// Encoding of a string: its UTF-8 bytes followed by a 0xff terminator
/// (a byte that never occurs in UTF-8), so that encodings are prefix-free.
pub open spec fn enc_str(s: Seq<char>) -> Seq<u8> {
    encode_utf8(s).push(0xffu8)
}

/// Encoding of a byte string (a hash, a seed): its length as eight
/// little-endian bytes, then the bytes.
pub open spec fn enc_bytes(b: Seq<u8>) -> Seq<u8> {
    le64(b.len() as u64) + b
}

/// Appends the encoding of a string.
pub fn push_str(out: &mut Vec<u8>, s: &str)
    ensures
        final(out)@ == old(out)@ + enc_str(s@),
{
    let bytes = s.as_bytes();
    let ghost start = out@;
    let mut i: usize = 0;
    while i < bytes.len()
        invariant
            i <= bytes@.len(),
            bytes@ == encode_utf8(s@),
            out@ == start + bytes@.subrange(0, i as int),
        decreases bytes@.len() - i,
    {
        out.push(bytes[i]);
        assert(out@ =~= start + bytes@.subrange(0, i + 1));
        i = i + 1;
    }
    out.push(0xffu8);
    assert(out@ =~= start + enc_str(s@));
}

/// Appends the little-endian bytes of `x`.
pub fn push_u64(out: &mut Vec<u8>, x: u64)
    ensures
        final(out)@ == old(out)@ + le64(x),
{
    let bytes = u64_to_le_bytes(x);
    let ghost start = out@;
    let mut i: usize = 0;
    while i < 8
        invariant
            i <= 8,
            bytes@.len() == 8,
            bytes@ == le64(x),
            out@ == start + bytes@.subrange(0, i as int),
        decreases 8 - i,
    {
        out.push(bytes[i]);
        assert(out@ =~= start + bytes@.subrange(0, i + 1));
        i = i + 1;
    }
    assert(bytes@.subrange(0, 8) =~= bytes@);
}

/// Appends the length-prefixed encoding of a byte string.
pub fn push_bytes(out: &mut Vec<u8>, b: &[u8])
    ensures
        final(out)@ == old(out)@ + enc_bytes(b@),
{
    let ghost start = out@;
    push_u64(out, b.len() as u64);
    let ghost mid = out@;
    let mut i: usize = 0;
    while i < b.len()
        invariant
            i <= b@.len(),
            out@ == mid + b@.subrange(0, i as int),
        decreases b@.len() - i,
    {
        out.push(b[i]);
        assert(out@ =~= mid + b@.subrange(0, i + 1));
        i = i + 1;
    }
    assert(b@.subrange(0, b@.len() as int) =~= b@);
    assert(out@ =~= start + enc_bytes(b@));
}

// ── Merkle root ──────────────────────────────────────────────────────────

/// Domain tag mixed into leaf hashes so a leaf can never be reinterpreted as
/// an internal node (second-preimage protection).
const MERKLE_LEAF_DOMAIN: &'static str = "abyss:merkle:leaf:v0";

/// Domain tag mixed into internal node hashes.
const MERKLE_NODE_DOMAIN: &'static str = "abyss:merkle:node:v0";

/// A leaf re-hashed under the leaf domain tag.
pub closed spec fn leaf_hash(leaf: Seq<u8>) -> Seq<u8> {
    dev_hash_spec(enc_str(MERKLE_LEAF_DOMAIN@) + enc_bytes(leaf))
}

/// Two nodes combined under the node domain tag.
pub closed spec fn node_hash(left: Seq<u8>, right: Seq<u8>) -> Seq<u8> {
    dev_hash_spec(enc_str(MERKLE_NODE_DOMAIN@) + enc_bytes(left) + enc_bytes(right))
}

/// One level up: nodes are combined pairwise; a lone last node is paired
/// with itself.
pub open spec fn next_level(level: Seq<Seq<u8>>) -> Seq<Seq<u8>> {
    Seq::new(
        ((level.len() + 1) / 2) as nat,
        |i: int|
            node_hash(
                level[2 * i],
                if 2 * i + 1 < level.len() {
                    level[2 * i + 1]
                } else {
                    level[2 * i]
                },
            ),
    )
}

/// Combines levels until one node is left.
pub open spec fn reduce_levels(level: Seq<Seq<u8>>) -> Seq<u8>
    decreases level.len(),
{
    if level.len() <= 1 {
        level[0]
    } else {
        reduce_levels(next_level(level))
    }
}

/// The views of a list of hashes.
pub open spec fn hash_views(hashes: Seq<Hash256>) -> Seq<Seq<u8>> {
    hashes.map_values(|h: Hash256| h@)
}

proof fn lemma_hash_views_push(s: Seq<Hash256>, h: Hash256)
    ensures
        hash_views(s.push(h)) == hash_views(s).push(h@),
{
    assert(hash_views(s.push(h)) =~= hash_views(s).push(h@));
}

/// The binary Merkle root over leaf hashes: zero for no leaves, otherwise
/// the leaves re-hashed under the leaf tag and then combined level by level.
pub open spec fn merkle_root_spec(leaves: Seq<Seq<u8>>) -> Seq<u8> {
    if leaves.len() == 0 {
        zero_hash_bytes()
    } else {
        reduce_levels(leaves.map_values(|l: Seq<u8>| leaf_hash(l)))
    }
}

fn hash_leaf(leaf: &Hash256) -> (r: Hash256)
    ensures
        r@ == leaf_hash(leaf@),
{
    let mut enc: Vec<u8> = Vec::new();
    push_str(&mut enc, MERKLE_LEAF_DOMAIN);
    push_bytes(&mut enc, leaf.as_slice());
    assert(enc@ =~= enc_str(MERKLE_LEAF_DOMAIN@) + enc_bytes(leaf@));
    dev_hash(enc.as_slice())
}

fn hash_node(left: &Hash256, right: &Hash256) -> (r: Hash256)
    ensures
        r@ == node_hash(left@, right@),
{
    let mut enc: Vec<u8> = Vec::new();
    push_str(&mut enc, MERKLE_NODE_DOMAIN);
    push_bytes(&mut enc, left.as_slice());
    push_bytes(&mut enc, right.as_slice());
    assert(enc@ =~= enc_str(MERKLE_NODE_DOMAIN@) + enc_bytes(left@) + enc_bytes(right@));
    dev_hash(enc.as_slice())
}

/// Computes the binary Merkle root over an ordered list of leaf hashes.
///
/// Leaves are first re-hashed under a leaf domain tag, then combined pairwise
/// under a node domain tag. When a level has an odd number of nodes the last
/// node is duplicated. An empty list yields [`ZERO_HASH`], matching the
/// transactions root of an empty block.
pub fn merkle_root(leaves: &[Hash256]) -> (r: Hash256)
    ensures
        r@ == merkle_root_spec(hash_views(leaves@)),
{
    if leaves.len() == 0 {
        proof {
            lemma_zero_hash();
        }
        return ZERO_HASH;
    }
    let ghost leaf_level = hash_views(leaves@).map_values(|l: Seq<u8>| leaf_hash(l));
    let mut level: Vec<Hash256> = Vec::new();
    let mut i: usize = 0;
    while i < leaves.len()
        invariant
            i <= leaves@.len(),
            leaf_level == hash_views(leaves@).map_values(|l: Seq<u8>| leaf_hash(l)),
            hash_views(level@) == leaf_level.subrange(0, i as int),
        decreases leaves@.len() - i,
    {
        let h = hash_leaf(&leaves[i]);
        let ghost before = level@;
        level.push(h);
        assert(hash_views(leaves@)[i as int] == leaves@[i as int]@);
        assert(leaf_level[i as int] == h@);
        proof { lemma_hash_views_push(before, h); }
        assert(leaf_level.subrange(0, i + 1) =~= leaf_level.subrange(0, i as int).push(h@));
        i = i + 1;
    }
    assert(leaf_level.subrange(0, leaves@.len() as int) =~= leaf_level);
    while level.len() > 1
        invariant
            level@.len() >= 1,
            reduce_levels(hash_views(level@)) == reduce_levels(leaf_level),
        decreases level@.len(),
    {
        let ghost cur = hash_views(level@);
        let n = level.len();
        let mut next: Vec<Hash256> = Vec::new();
        let half = n / 2 + n % 2;
        let mut k: usize = 0;
        while k < half
            invariant
                n == level@.len(),
                n > 1,
                half == (n + 1) / 2,
                cur == hash_views(level@),
                k <= half,
                hash_views(next@) == next_level(cur).subrange(0, k as int),
            decreases half - k,
        {
            let left = level[2 * k];
            let right = if 2 * k + 1 < n {
                level[2 * k + 1]
            } else {
                level[2 * k]
            };
            let h = hash_node(&left, &right);
            let ghost before = next@;
            next.push(h);
            assert(cur[2 * k as int] == left@);
            assert(2 * k + 1 < n ==> cur[2 * k + 1] == right@);
            assert(next_level(cur)[k as int] == h@);
            proof { lemma_hash_views_push(before, h); }
            assert(next_level(cur).subrange(0, k + 1) =~= next_level(cur).subrange(0, k as int).push(h@));
            k = k + 1;
        }
        assert(next_level(cur).subrange(0, k as int) =~= next_level(cur));
        level = next;
    }
    level[0]
}

/// Lower-case hex rendering of a hash (64 characters).
pub fn hex(hash: &Hash256) -> (r: String)
    ensures
        r@ == hex_chars(hash@),
{
    let mut out = String::new();
    push_hex(&mut out, hash.as_slice());
    out
}

/// Whether two hashes hold the same bytes.
pub fn hash_eq(a: &Hash256, b: &Hash256) -> (r: bool)
    ensures
        r == (a@ == b@),
{
    let mut i: usize = 0;
    while i < 32
        invariant
            i <= 32,
            a@.len() == 32,
            b@.len() == 32,
            forall|j: int| 0 <= j < i ==> a@[j] == b@[j],
        decreases 32 - i,
    {
        if a[i] != b[i] {
            return false;
        }
        i = i + 1;
    }
    assert(a@ =~= b@);
    true
}

/// An odd level of at least three leaves combines exactly as the same level
/// with its last leaf repeated: the lone last node is paired with itself.
pub proof fn lemma_merkle_odd_level_duplicates_last(leaves: Seq<Seq<u8>>)
    requires
        leaves.len() >= 3,
        leaves.len() % 2 == 1,
    ensures
        merkle_root_spec(leaves.push(leaves.last())) == merkle_root_spec(leaves),
{
    let a = leaves.map_values(|l: Seq<u8>| leaf_hash(l));
    let b = leaves.push(leaves.last()).map_values(|l: Seq<u8>| leaf_hash(l));
    assert(next_level(a) =~= next_level(b));
}

/// The root of a single leaf is that leaf re-hashed under the leaf domain.
pub proof fn lemma_merkle_single_leaf(leaf: Seq<u8>)
    ensures
        merkle_root_spec(seq![leaf]) == leaf_hash(leaf),
{
    assert(seq![leaf].map_values(|l: Seq<u8>| leaf_hash(l)) =~= seq![leaf_hash(leaf)]);
}

} // verus!
