use transaction_storage::chunks::{num_chunks, split_chunks, CHUNK_SIZE};
use transaction_storage::error::Error;
use transaction_storage::index::{append_info, chunk_offset_within_item, lookup_by_chunk, TransactionInfo};
use transaction_storage::ledger::{
    expire_usage, same_hash, same_scope, AuthorizationExtent, AuthorizationScope,
    AuthorizationUsage, Ledger,
};
use transaction_storage::pallet::{
    Config, Event, Origin, Pallet, StorageProof, DEFAULT_MAX_BLOCK_TRANSACTIONS,
    DEFAULT_MAX_TRANSACTION_SIZE,
};

const PERIOD: u64 = 10;

fn config() -> Config {
    Config {
        max_block_transactions: DEFAULT_MAX_BLOCK_TRANSACTIONS,
        max_transaction_size: DEFAULT_MAX_TRANSACTION_SIZE,
        max_block_authorization_expiries: 4,
        authorization_period: PERIOD,
        storage_period: PERIOD,
    }
}

fn pallet_at(block: u64) -> Pallet {
    let mut p = Pallet::new(config());
    p.block_number = block;
    p.extrinsic_index = Some(0);
    p
}

fn blob(len: usize, seed: u8) -> Vec<u8> {
    (0..len).map(|i| (i as u8).wrapping_mul(31).wrapping_add(seed)).collect()
}

fn extent(transactions: u32, bytes: u64) -> AuthorizationExtent {
    AuthorizationExtent { transactions, bytes }
}

fn seed_selecting(chunk: u8) -> [u8; 32] {
    let mut h = [0u8; 32];
    h[7] = chunk;
    h[20] = 0xAB;
    h
}

fn to_proof(p: sp_transaction_storage_proof::TransactionStorageProof) -> StorageProof {
    StorageProof { chunk: p.chunk, proof: p.proof }
}

/// A pallet at the block whose proof target is block 1, where `data` was stored.
fn pallet_with_target(data: &Vec<u8>, parent_hash: [u8; 32]) -> Pallet {
    let mut p = pallet_at(1);
    p.authorize_account(Origin::Root, 7, 1, data.len() as u64).unwrap();
    p.store(Origin::Signed(7), data).unwrap();
    p.on_finalize(1);
    p.block_number = 1 + PERIOD;
    p.parent_hash = parent_hash;
    p.on_initialize(1 + PERIOD);
    p
}

#[test]
fn chunk_size_matches_proof_crate() {
    assert_eq!(CHUNK_SIZE, sp_transaction_storage_proof::CHUNK_SIZE);
}

#[test]
fn chunk_counts_are_ceilings() {
    assert_eq!(num_chunks(0), 0);
    assert_eq!(num_chunks(1), 1);
    assert_eq!(num_chunks(20), 1);
    assert_eq!(num_chunks(256), 1);
    assert_eq!(num_chunks(257), 2);
    assert_eq!(num_chunks(u32::MAX), 16_777_216);
    for n in [0u32, 1, 255, 256, 511, 512, 513, 100_000] {
        assert_eq!(num_chunks(n), sp_transaction_storage_proof::num_chunks(n));
    }
}

#[test]
fn split_chunks_keeps_order_and_short_tail() {
    let data = blob(600, 3);
    let chunks = split_chunks(&data);
    assert_eq!(chunks.len(), 3);
    assert_eq!(chunks[0], data[0..256].to_vec());
    assert_eq!(chunks[1], data[256..512].to_vec());
    assert_eq!(chunks[2], data[512..600].to_vec());
    assert!(split_chunks(&Vec::new()).is_empty());
}

#[test]
fn small_blob_gives_one_chunk() {
    let mut p = pallet_at(1);
    p.authorize_account(Origin::Root, 1, 1, 20).unwrap();
    let data = blob(20, 0);
    assert_eq!(p.store(Origin::Signed(1), &data), Ok(0));
    assert_eq!(p.block_transactions.len(), 1);
    assert_eq!(p.block_transactions[0].block_chunks, 1);
    assert_eq!(p.block_transactions[0].size, 20);
}

#[test]
fn stored_record_commits_to_data() {
    let mut p = pallet_at(1);
    p.authorize_account(Origin::Root, 1, 1, 1000).unwrap();
    let data = blob(700, 9);
    p.store(Origin::Signed(1), &data).unwrap();
    let info = p.block_transactions[0];
    assert_eq!(info.content_hash, sp_io::hashing::blake2_256(&data));
    assert_ne!(info.content_hash[..], data[..32]);
    let chunks: Vec<Vec<u8>> = data.chunks(CHUNK_SIZE).map(|c| c.to_vec()).collect();
    let root = sp_io::trie::blake2_256_ordered_root(chunks, sp_runtime::StateVersion::V1);
    assert_eq!(info.chunk_root, root.0);
    assert!(matches!(p.events.last(), Some(Event::Stored { index: 0 })));
}

#[test]
fn cumulative_counts_and_lookup() {
    let mut list: Vec<TransactionInfo> = Vec::new();
    append_info(&mut list, [1u8; 32], [1u8; 32], 300);
    append_info(&mut list, [2u8; 32], [2u8; 32], 700);
    append_info(&mut list, [3u8; 32], [3u8; 32], 10);
    let totals: Vec<u32> = list.iter().map(|t| t.block_chunks).collect();
    assert_eq!(totals, vec![2, 5, 6]);
    let i = lookup_by_chunk(&list, 4);
    assert_eq!(i, 1);
    assert_eq!(list[i].size, 700);
    assert_eq!(chunk_offset_within_item(&list[i], 4), 2);
    assert_eq!(lookup_by_chunk(&list, 0), 0);
    assert_eq!(lookup_by_chunk(&list, 5), 1);
    assert_eq!(lookup_by_chunk(&list, 6), 2);
    assert_eq!(lookup_by_chunk(&list, 7), 3);
}

#[test]
fn stores_in_one_block_accumulate_chunks() {
    let mut p = pallet_at(1);
    p.authorize_account(Origin::Root, 1, 3, 2000).unwrap();
    assert_eq!(p.store(Origin::Signed(1), &blob(300, 0)), Ok(0));
    assert_eq!(p.store(Origin::Signed(1), &blob(700, 1)), Ok(1));
    assert_eq!(p.store(Origin::Signed(1), &blob(10, 2)), Ok(2));
    let totals: Vec<u32> = p.block_transactions.iter().map(|t| t.block_chunks).collect();
    assert_eq!(totals, vec![2, 5, 6]);
    p.on_finalize(1);
    assert_eq!(p.chunk_count_of(1), 6);
    assert_eq!(p.transactions.get(&1).unwrap().last().unwrap().block_chunks, 6);
    assert!(p.block_transactions.is_empty());
}

#[test]
fn ledger_grant_then_consume() {
    let mut l = Ledger::new();
    let s = AuthorizationScope::Account(5);
    l.grant(s, 1, 100, 20, 4).unwrap();
    assert_eq!(l.consume(s, 60), Ok(()));
    let u = l.usage(&s);
    assert_eq!(u.unused, extent(0, 40));
    assert_eq!(u.used, extent(1, 60));
    assert_eq!(l.consume(s, 1), Err(Error::NotAuthorized));
    assert_eq!(l.usage(&s), u);
}

#[test]
fn consume_fails_on_the_call_that_exceeds_bytes() {
    let mut l = Ledger::new();
    let s = AuthorizationScope::Preimage([4u8; 32]);
    l.grant(s, 3, 100, 20, 4).unwrap();
    assert_eq!(l.consume(s, 50), Ok(()));
    assert_eq!(l.consume(s, 50), Ok(()));
    assert_eq!(l.consume(s, 1), Err(Error::NotAuthorized));
    assert_eq!(l.usage(&s).unused, extent(1, 0));
    assert_eq!(l.consume(s, 0), Ok(()));
    assert_eq!(l.consume(s, 0), Err(Error::NotAuthorized));
}

#[test]
fn pallet_grant_then_consume() {
    let mut p = pallet_at(1);
    p.authorize_account(Origin::Root, 9, 1, 100).unwrap();
    p.store(Origin::Signed(9), &blob(60, 0)).unwrap();
    assert_eq!(p.unused_account_authorization_extent(9), extent(0, 40));
    assert_eq!(p.ledger.usage(&AuthorizationScope::Account(9)).used, extent(1, 60));
    assert_eq!(p.store(Origin::Signed(9), &blob(10, 0)), Err(Error::NotAuthorized));
}

#[test]
fn expiry_removes_whole_grant() {
    for used in [0u64, 30, 100] {
        let mut p = pallet_at(5);
        p.authorize_account(Origin::Root, 2, 2, 100).unwrap();
        if used > 0 {
            p.store(Origin::Signed(2), &blob(used as usize, 1)).unwrap();
        }
        p.on_initialize(5 + PERIOD);
        assert_eq!(p.unused_account_authorization_extent(2), extent(0, 0));
        assert_eq!(
            p.ledger.usage(&AuthorizationScope::Account(2)),
            AuthorizationUsage { used: extent(0, 0), unused: extent(0, 0) }
        );
        assert!(p.ledger.usage.is_empty());
    }
}

#[test]
fn expiry_charges_used_pool_first() {
    let u = AuthorizationUsage { used: extent(1, 50), unused: extent(3, 250) };
    let r = expire_usage(u, extent(2, 100));
    assert_eq!(r.used, extent(0, 0));
    assert_eq!(r.unused, extent(2, 200));
}

#[test]
fn expiry_keeps_later_grant() {
    let mut p = pallet_at(1);
    p.authorize_account(Origin::Root, 3, 1, 100).unwrap();
    p.block_number = 2;
    p.authorize_account(Origin::Root, 3, 1, 50).unwrap();
    p.on_initialize(1 + PERIOD);
    assert_eq!(p.unused_account_authorization_extent(3), extent(1, 50));
    p.on_initialize(2 + PERIOD);
    assert_eq!(p.unused_account_authorization_extent(3), extent(0, 0));
}

#[test]
fn preimage_authorization_allows_unsigned_store() {
    let mut p = pallet_at(1);
    let data = blob(40, 7);
    let hash = sp_io::hashing::blake2_256(&data);
    p.authorize_preimage(Origin::Root, hash, 40).unwrap();
    assert_eq!(p.unused_preimage_authorization_extent(hash), extent(1, 40));
    assert_eq!(p.store(Origin::Unsigned, &blob(40, 8)), Err(Error::NotAuthorized));
    assert_eq!(p.store(Origin::Unsigned, &data), Ok(0));
    assert_eq!(p.unused_preimage_authorization_extent(hash), extent(0, 0));
}

#[test]
fn no_proof_before_retention_window() {
    let mut p = pallet_at(PERIOD);
    assert!(!p.is_proof_required());
    let proof = StorageProof { chunk: vec![1, 2, 3], proof: vec![] };
    assert_eq!(p.check_proof(Origin::Unsigned, &proof), Err(Error::UnexpectedProof));
    p.on_finalize(PERIOD);
}

#[test]
fn no_proof_for_empty_target_block() {
    let mut p = pallet_at(PERIOD + 3);
    assert!(!p.is_proof_required());
    let proof = StorageProof { chunk: vec![], proof: vec![] };
    assert_eq!(p.check_proof(Origin::Unsigned, &proof), Err(Error::UnexpectedProof));
}

#[test]
fn proof_round_trip() {
    let data = blob(1000, 5);
    let seed = seed_selecting(2);
    let mut p = pallet_with_target(&data, seed);
    assert!(p.is_proof_required());
    let built = sp_transaction_storage_proof::registration::build_proof(&seed, vec![data.clone()])
        .unwrap()
        .unwrap();
    assert_eq!(built.chunk, data[512..768].to_vec());
    assert_eq!(p.check_proof(Origin::Unsigned, &to_proof(built)), Ok(()));
    assert!(p.proof_checked);
    assert!(matches!(p.events.last(), Some(Event::ProofChecked)));
    let again = StorageProof { chunk: vec![], proof: vec![] };
    assert_eq!(p.check_proof(Origin::Unsigned, &again), Err(Error::DoubleCheck));
    p.on_finalize(1 + PERIOD);
    assert!(!p.proof_checked);
}

#[test]
fn proof_with_flipped_bit_fails() {
    let data = blob(1000, 5);
    let seed = seed_selecting(2);
    let mut p = pallet_with_target(&data, seed);
    let built = sp_transaction_storage_proof::registration::build_proof(&seed, vec![data.clone()])
        .unwrap()
        .unwrap();
    let mut proof = to_proof(built);
    proof.chunk[10] ^= 1;
    assert_eq!(p.check_proof(Origin::Unsigned, &proof), Err(Error::InvalidProof));
    assert!(!p.proof_checked);
}

#[test]
fn proof_of_other_position_fails() {
    let data = blob(1000, 5);
    let mut p = pallet_with_target(&data, seed_selecting(2));
    let other = sp_transaction_storage_proof::registration::build_proof(
        &seed_selecting(1),
        vec![data.clone()],
    )
    .unwrap()
    .unwrap();
    assert_eq!(p.check_proof(Origin::Unsigned, &to_proof(other)), Err(Error::InvalidProof));
}

#[test]
fn proof_in_second_item_uses_in_item_position() {
    let first = blob(300, 1);
    let second = blob(700, 2);
    let seed = seed_selecting(4);
    let mut p = pallet_at(1);
    p.authorize_account(Origin::Root, 7, 2, 1000).unwrap();
    p.store(Origin::Signed(7), &first).unwrap();
    p.store(Origin::Signed(7), &second).unwrap();
    p.on_finalize(1);
    p.block_number = 1 + PERIOD;
    p.parent_hash = seed;
    let built = sp_transaction_storage_proof::registration::build_proof(
        &seed,
        vec![first.clone(), second.clone()],
    )
    .unwrap()
    .unwrap();
    assert_eq!(built.chunk, second[512..700].to_vec());
    assert_eq!(p.check_proof(Origin::Unsigned, &to_proof(built)), Ok(()));
}

#[test]
fn check_proof_needs_unsigned_origin() {
    let data = blob(100, 5);
    let mut p = pallet_with_target(&data, seed_selecting(0));
    let proof = StorageProof { chunk: vec![], proof: vec![] };
    assert_eq!(p.check_proof(Origin::Signed(1), &proof), Err(Error::BadOrigin));
    assert_eq!(p.check_proof(Origin::Root, &proof), Err(Error::BadOrigin));
}

#[test]
fn store_errors() {
    let mut p = pallet_at(1);
    assert_eq!(p.store(Origin::Signed(1), &Vec::new()), Err(Error::EmptyTransaction));
    assert_eq!(p.store(Origin::Signed(1), &blob(10, 0)), Err(Error::NotAuthorized));
    assert_eq!(p.store(Origin::Root, &blob(10, 0)), Err(Error::BadOrigin));
    p.authorize_account(Origin::Root, 1, 5, 1000).unwrap();
    p.extrinsic_index = None;
    assert_eq!(p.store(Origin::Signed(1), &blob(10, 0)), Err(Error::BadContext));
    assert_eq!(p.unused_account_authorization_extent(1), extent(5, 1000));

    let mut small = Pallet::new(Config { max_transaction_size: 100, max_block_transactions: 1, ..config() });
    small.extrinsic_index = Some(0);
    small.block_number = 1;
    small.authorize_account(Origin::Root, 1, 5, 1000).unwrap();
    assert_eq!(small.store(Origin::Signed(1), &blob(101, 0)), Err(Error::TransactionTooLarge));
    assert_eq!(small.store(Origin::Signed(1), &blob(100, 0)), Ok(0));
    assert_eq!(small.store(Origin::Signed(1), &blob(1, 0)), Err(Error::TooManyTransactions));
    assert_eq!(small.unused_account_authorization_extent(1), extent(4, 900));
}

#[test]
fn renew_copies_record() {
    let data = blob(600, 3);
    let mut p = pallet_at(1);
    p.authorize_account(Origin::Root, 1, 2, 1200).unwrap();
    p.store(Origin::Signed(1), &data).unwrap();
    p.on_finalize(1);
    p.block_number = 2;
    assert_eq!(p.renew(Origin::Signed(1), 1, 1), Err(Error::RenewedNotFound));
    assert_eq!(p.renew(Origin::Signed(1), 3, 0), Err(Error::RenewedNotFound));
    assert_eq!(p.renew(Origin::Signed(1), 1, 0), Ok(0));
    let old = p.transactions.get(&1).unwrap()[0];
    let new = p.block_transactions[0];
    assert_eq!(new.chunk_root, old.chunk_root);
    assert_eq!(new.content_hash, old.content_hash);
    assert_eq!(new.size, 600);
    assert_eq!(new.block_chunks, 3);
    assert!(matches!(p.events.last(), Some(Event::Renewed { index: 0 })));
    assert_eq!(p.renew(Origin::Signed(1), 1, 0), Err(Error::NotAuthorized));
}

#[test]
fn old_blocks_are_pruned() {
    let mut p = pallet_at(1);
    p.authorize_account(Origin::Root, 1, 1, 100).unwrap();
    p.store(Origin::Signed(1), &blob(10, 0)).unwrap();
    p.on_finalize(1);
    p.on_initialize(1 + PERIOD);
    assert_eq!(p.chunk_count_of(1), 1);
    p.on_initialize(2 + PERIOD);
    assert_eq!(p.chunk_count_of(1), 0);
    assert!(p.transactions.get(&1).is_none());
}

#[test]
fn empty_block_is_not_committed() {
    let mut p = pallet_at(3);
    p.on_finalize(3);
    assert!(p.transactions.is_empty());
    assert!(p.chunk_count.is_empty());
}

#[test]
fn authorization_errors() {
    let mut p = pallet_at(1);
    assert_eq!(p.authorize_account(Origin::Signed(1), 1, 1, 1), Err(Error::BadOrigin));
    assert_eq!(p.authorize_preimage(Origin::Unsigned, [0u8; 32], 1), Err(Error::BadOrigin));
    for _ in 0..4 {
        p.authorize_account(Origin::Root, 1, 1, 1).unwrap();
    }
    assert_eq!(p.authorize_account(Origin::Root, 2, 1, 1), Err(Error::TooManyAuthorizations));
    assert_eq!(p.unused_account_authorization_extent(2), extent(0, 0));
    assert_eq!(p.unused_account_authorization_extent(1), extent(4, 4));
    p.block_number = u64::MAX - 1;
    assert_eq!(p.authorize_account(Origin::Root, 1, 1, 1), Err(Error::Overflow));
}

#[test]
fn grants_saturate() {
    let mut l = Ledger::new();
    let s = AuthorizationScope::Account(1);
    l.grant(s, u32::MAX, u64::MAX, 5, 4).unwrap();
    l.grant(s, 10, 10, 5, 4).unwrap();
    assert_eq!(l.usage(&s).unused, extent(u32::MAX, u64::MAX));
}

#[test]
fn scope_comparison() {
    let a = AuthorizationScope::Account(1);
    let b = AuthorizationScope::Account(2);
    let h = AuthorizationScope::Preimage([1u8; 32]);
    let mut other = [1u8; 32];
    other[31] = 2;
    assert!(same_scope(&a, &a));
    assert!(!same_scope(&a, &b));
    assert!(!same_scope(&a, &h));
    assert!(same_scope(&h, &AuthorizationScope::Preimage([1u8; 32])));
    assert!(!same_hash(&[1u8; 32], &other));
}

#[test]
fn config_integrity() {
    assert!(Pallet::integrity_test(&config()));
    assert!(!Pallet::integrity_test(&Config { storage_period: 0, ..config() }));
    assert!(!Pallet::integrity_test(&Config { max_transaction_size: 0, ..config() }));
}
