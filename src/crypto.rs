//! The cryptographic primitives this library builds on: content hashing, the
//! ordered chunk-trie commitment, trie proof verification, challenge selection
//! and the encoding of chunk positions as trie keys.
use vstd::prelude::*;

verus! {

/// The BLAKE2b-256 digest of `data`.
pub uninterp spec fn blake2_256_of(data: Seq<u8>) -> Seq<u8>;

/// The root of the ordered (index-keyed) BLAKE2b-256 trie over `chunks`.
pub uninterp spec fn ordered_root_of(chunks: Seq<Seq<u8>>) -> Seq<u8>;

/// Whether `proof` shows that the trie with root `root` maps `key` to `value`.
pub uninterp spec fn trie_proof_holds(
    root: Seq<u8>,
    proof: Seq<Seq<u8>>,
    key: Seq<u8>,
    value: Seq<u8>,
) -> bool;

/// The byte sequences held by a vector of byte vectors.
pub open spec fn byte_seqs(v: Seq<Vec<u8>>) -> Seq<Seq<u8>> {
    v.map_values(|c: Vec<u8>| c@)
}

/// Reads the first eight bytes of `s` as a big-endian unsigned integer.
pub open spec fn be_u64(s: Seq<u8>) -> int {
    s[0] * 0x100_0000_0000_0000 + s[1] * 0x1_0000_0000_0000 + s[2] * 0x100_0000_0000
        + s[3] * 0x1_0000_0000 + s[4] * 0x100_0000 + s[5] * 0x1_0000 + s[6] * 0x100 + s[7]
}

/// The four little-endian bytes of `v`.
pub open spec fn le4(v: int) -> Seq<u8> {
    seq![
        (v % 0x100) as u8,
        (v / 0x100 % 0x100) as u8,
        (v / 0x1_0000 % 0x100) as u8,
        (v / 0x100_0000 % 0x100) as u8,
    ]
}

/// The SCALE compact encoding of a 32-bit integer.
pub open spec fn compact_u32(n: u32) -> Seq<u8> {
    if n < 0x40 {
        seq![(n * 4) as u8]
    } else if n < 0x4000 {
        let v = n * 4 + 1;
        seq![(v % 0x100) as u8, (v / 0x100) as u8]
    } else if n < 0x4000_0000 {
        le4(n * 4 + 2)
    } else {
        seq![3u8] + le4(n as int)
    }
}

/// Relies on `sp_io::hashing::blake2_256`: the BLAKE2b-256 digest of `data`.
#[verifier::external_body]
pub(crate) fn content_hash(data: &Vec<u8>) -> (r: [u8; 32])
    ensures
        r@ == blake2_256_of(data@),
{
    sp_io::hashing::blake2_256(data)
}

/// Relies on `sp_io::trie::blake2_256_ordered_root` (state version 1): the root
/// of the trie that maps the compact-encoded position of each chunk to it.
#[verifier::external_body]
pub(crate) fn ordered_root(chunks: Vec<Vec<u8>>) -> (r: [u8; 32])
    ensures
        r@ == ordered_root_of(byte_seqs(chunks@)),
{
    sp_io::trie::blake2_256_ordered_root(chunks, sp_runtime::StateVersion::V1).0
}

/// Relies on `sp_io::trie::blake2_256_verify_proof` (state version 1): whether
/// `proof` shows that the trie with root `root` maps `key` to `value`.
#[verifier::external_body]
pub(crate) fn verify_proof(root: &[u8; 32], proof: &Vec<Vec<u8>>, key: &Vec<u8>, value: &Vec<u8>) -> (r:
    bool)
    ensures
        r == trie_proof_holds(root@, byte_seqs(proof@), key@, value@),
{
    sp_io::trie::blake2_256_verify_proof((*root).into(), proof, key, value, sp_runtime::StateVersion::V1)
}

/// Relies on `sp_transaction_storage_proof::random_chunk`: the first eight
/// bytes of the seed read big-endian, reduced modulo `total_chunks`.
#[verifier::external_body]
pub(crate) fn random_chunk(seed: &[u8; 32], total_chunks: u32) -> (r: u32)
    requires
        total_chunks > 0,
    ensures
        r as int == be_u64(seed@) % (total_chunks as int),
{
    sp_transaction_storage_proof::random_chunk(seed, total_chunks)
}

/// Relies on `sp_transaction_storage_proof::encode_index`: the SCALE compact
/// encoding of a chunk position, which keys the chunk in its trie.
#[verifier::external_body]
pub(crate) fn encode_index(index: u32) -> (r: Vec<u8>)
    ensures
        r@ == compact_u32(index),
{
    sp_transaction_storage_proof::encode_index(index)
}

} // verus!
