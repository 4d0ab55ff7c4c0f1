//! The per-block lifecycle: registering and renewing data, the storage proof
//! challenge, authorization calls, and the hooks run at block start and end.
use vstd::prelude::*;

use std::collections::HashMap;

use crate::chunks::{chunk_at, chunks_for, split_chunks};
use crate::crypto::{
    be_u64, blake2_256_of, byte_seqs, compact_u32, content_hash, encode_index, ordered_root,
    ordered_root_of, random_chunk, trie_proof_holds, verify_proof,
};
use crate::error::Error;
use crate::index::{
    append_info, chunk_offset_within_item, first_at_least, lemma_running_totals_non_decreasing,
    lookup_by_chunk, non_decreasing, offset_in_item, running_totals_ok, sat_add_u32, total_chunks,
    Hash32, TransactionInfo,
};
use crate::ledger::{
    can_consume, consumed, credited, expired_all, sat_add, sat_sub, AccountId, Authorization,
    AuthorizationExtent, AuthorizationScope, Ledger, PreimageHash, ScopeView,
};

verus! {

broadcast use vstd::std_specs::hash::group_hash_axioms;

/// Default maximum size in bytes of one stored item.
pub const DEFAULT_MAX_TRANSACTION_SIZE: u32 = 8 * 1024 * 1024;

/// Default maximum number of items registered in one block.
pub const DEFAULT_MAX_BLOCK_TRANSACTIONS: u32 = 512;

/// The configured limits and periods.
#[derive(Clone, Copy, Debug)]
pub struct Config {
    /// Maximum number of items registered in one block.
    pub max_block_transactions: u32,
    /// Maximum size in bytes of one item.
    pub max_transaction_size: u32,
    /// Maximum number of authorizations that expire at one block.
    pub max_block_authorization_expiries: u32,
    /// Authorizations expire this many blocks after they are granted.
    pub authorization_period: u64,
    /// Number of blocks for which an item's record is kept.
    pub storage_period: u64,
}

/// The origin of a call.
#[derive(Clone, Copy, Debug, PartialEq, Eq, Structural)]
pub enum Origin {
    /// The privileged origin that may grant authorizations.
    Root,
    /// A call signed by an account.
    Signed(AccountId),
    /// An unsigned call.
    Unsigned,
}

/// A chunk of stored data together with its trie inclusion proof.
#[derive(Debug)]
pub struct StorageProof {
    /// The chunk that is proved to be held.
    pub chunk: Vec<u8>,
    /// The trie nodes that make up the proof.
    pub proof: Vec<Vec<u8>>,
}

/// What a successful call reports.
#[derive(Clone, Copy, Debug)]
pub enum Event {
    /// Data was stored under the given index of the current block.
    Stored { index: u32 },
    /// Data was renewed under the given index of the current block.
    Renewed { index: u32 },
    /// The storage proof was checked.
    ProofChecked,
    /// An account may submit `transactions` items of up to `max_size` bytes in all.
    AccountUploadAuthorized { who: AccountId, transactions: u32, max_size: u64 },
    /// Anyone may upload the preimage of `hash`, of at most `max_size` bytes.
    PreimageUploadAuthorized { hash: PreimageHash, max_size: u64 },
}

/// The state of the storage ledger and of the block being built.
pub struct Pallet {
    /// The configured limits and periods.
    pub config: Config,
    /// Number of the current block.
    pub block_number: u64,
    /// Hash of the parent block, the seed of the proof challenge.
    pub parent_hash: Hash32,
    /// Index of the call being executed within the block, if any.
    pub extrinsic_index: Option<u32>,
    /// Authorization usage and expiries.
    pub ledger: Ledger,
    /// Records of the items of each committed block.
    pub transactions: HashMap<u64, Vec<TransactionInfo>>,
    /// Total chunk count of each committed block.
    pub chunk_count: HashMap<u64, u32>,
    /// Records of the items registered so far in the current block.
    pub block_transactions: Vec<TransactionInfo>,
    /// Whether a proof was checked in the current block.
    pub proof_checked: bool,
    /// Events reported so far.
    pub events: Vec<Event>,
}

/// The chunks of `data`, in order.
pub open spec fn chunks_of(data: Seq<u8>) -> Seq<Seq<u8>> {
    Seq::new(chunks_for(data.len() as int) as nat, |i: int| chunk_at(data, i))
}

/// `after` is `before` with one record appended for an item of `size` bytes
/// with chunk root `root` and content hash `hash`.
pub open spec fn appended(
    before: Seq<TransactionInfo>,
    after: Seq<TransactionInfo>,
    root: Seq<u8>,
    hash: Seq<u8>,
    size: u32,
) -> bool {
    &&& after.len() == before.len() + 1
    &&& after.drop_last() == before
    &&& after.last().chunk_root@ == root
    &&& after.last().content_hash@ == hash
    &&& after.last().size == size
    &&& after.last().block_chunks == sat_add_u32(total_chunks(before), chunks_for(size as int))
}

impl Pallet {
    /// The invariant of the state.
    pub open spec fn wf(&self) -> bool {
        &&& self.ledger.wf()
        &&& running_totals_ok(self.block_transactions@)
        &&& forall|b: u64| #[trigger]
            self.transactions@.contains_key(b) <==> self.chunk_count@.contains_key(b)
        &&& forall|b: u64| #[trigger]
            self.transactions@.contains_key(b) ==> {
                &&& running_totals_ok(self.transactions@[b]@)
                &&& self.chunk_count@[b] == total_chunks(self.transactions@[b]@)
                &&& self.chunk_count@[b] != 0
            }
    }

    /// The total chunk count recorded for block `b`, zero when none is.
    pub open spec fn chunk_count_at(&self, b: u64) -> int {
        if self.chunk_count@.contains_key(b) {
            self.chunk_count@[b] as int
        } else {
            0
        }
    }

    /// The block whose data the current block's proof is about.
    pub open spec fn target_block(&self) -> u64 {
        sat_sub(self.block_number as int, self.config.storage_period as int) as u64
    }

    /// Whether the current block must check a storage proof: its target block
    /// exists and holds data.
    pub open spec fn proof_due(&self) -> bool {
        self.target_block() != 0 && self.chunk_count_at(self.target_block()) != 0
    }

    /// The scope an origin acts for when storing data with content hash `hash`.
    pub open spec fn scope_for(origin: Origin, hash: Seq<u8>) -> Option<ScopeView> {
        match origin {
            Origin::Signed(who) => Some(ScopeView::Account(who)),
            Origin::Unsigned => Some(ScopeView::Preimage(hash)),
            Origin::Root => None,
        }
    }

    /// An empty ledger at block zero with the given configuration.
    pub fn new(config: Config) -> (r: Pallet)
        ensures
            r.wf(),
            r.config == config,
            r.block_number == 0,
            r.extrinsic_index is None,
            !r.proof_checked,
            r.block_transactions@.len() == 0,
            r.events@.len() == 0,
            forall|b: u64| !(#[trigger] r.transactions@.contains_key(b)),
            forall|s: ScopeView| #[trigger] r.ledger.usage_of(s) == crate::ledger::zero_usage(),
    {
        Pallet {
            config,
            block_number: 0,
            parent_hash: [0u8; 32],
            extrinsic_index: None,
            ledger: Ledger::new(),
            transactions: HashMap::new(),
            chunk_count: HashMap::new(),
            block_transactions: Vec::new(),
            proof_checked: false,
            events: Vec::new(),
        }
    }

    /// Whether the configuration is useful: authorizations last, data is
    /// stored, and items can be submitted and hold data.
    pub fn integrity_test(config: &Config) -> (r: bool)
        ensures
            r == (config.authorization_period != 0 && config.storage_period != 0
                && config.max_block_transactions != 0 && config.max_transaction_size != 0),
    {
        config.authorization_period != 0 && config.storage_period != 0
            && config.max_block_transactions != 0 && config.max_transaction_size != 0
    }

    /// Total chunk count recorded for block `b`.
    pub fn chunk_count_of(&self, b: u64) -> (r: u32)
        ensures
            r == self.chunk_count_at(b),
    {
        match self.chunk_count.get(&b) {
            Some(c) => *c,
            None => 0,
        }
    }

    /// Whether the current block must check a storage proof.
    pub fn is_proof_required(&self) -> (r: bool)
        ensures
            r == self.proof_due(),
    {
        let target = self.block_number.saturating_sub(self.config.storage_period);
        target != 0 && self.chunk_count_of(target) != 0
    }

    /// Block start: drops the records of the block that left the retention
    /// window, and expires the authorizations that end at block `n`. The
    /// caller sets `block_number` and `parent_hash` for the new block.
    pub fn on_initialize(&mut self, n: u64)
        requires
            old(self).wf(),
        ensures
            final(self).wf(),
            ({
                let obsolete = sat_sub(
                    n as int,
                    sat_add(old(self).config.storage_period as int, 1, u64::MAX as int),
                ) as u64;
                &&& final(self).transactions@ == if obsolete > 0 {
                    old(self).transactions@.remove(obsolete)
                } else {
                    old(self).transactions@
                }
                &&& final(self).chunk_count@ == if obsolete > 0 {
                    old(self).chunk_count@.remove(obsolete)
                } else {
                    old(self).chunk_count@
                }
            }),
            forall|s: ScopeView| #[trigger]
                final(self).ledger.usage_of(s) == expired_all(
                    old(self).ledger.usage_of(s),
                    old(self).ledger.expiring_at(n),
                    s,
                ),
            forall|b: u64| #[trigger]
                final(self).ledger.expiring_at(b) == if b == n {
                    Seq::<Authorization>::empty()
                } else {
                    old(self).ledger.expiring_at(b)
                },
            final(self).config == old(self).config,
            final(self).block_number == old(self).block_number,
            final(self).parent_hash == old(self).parent_hash,
            final(self).extrinsic_index == old(self).extrinsic_index,
            final(self).block_transactions == old(self).block_transactions,
            final(self).proof_checked == old(self).proof_checked,
            final(self).events == old(self).events,
    {
        let obsolete = n.saturating_sub(self.config.storage_period.saturating_add(1));
        if obsolete > 0 {
            self.transactions.remove(&obsolete);
            self.chunk_count.remove(&obsolete);
        }
        self.ledger.expire(n);
    }

    /// Block end: commits the block's records under block `n` when they hold
    /// any chunk, and resets the per-block state. A proof must have been
    /// checked when one was due.
    pub fn on_finalize(&mut self, n: u64)
        requires
            old(self).wf(),
            old(self).proof_checked || !old(self).proof_due(),
        ensures
            final(self).wf(),
            ({
                let list = old(self).block_transactions@;
                let total = total_chunks(list);
                &&& final(self).transactions@ == if total != 0 {
                    old(self).transactions@.insert(n, old(self).block_transactions)
                } else {
                    old(self).transactions@
                }
                &&& final(self).chunk_count@ == if total != 0 {
                    old(self).chunk_count@.insert(n, total as u32)
                } else {
                    old(self).chunk_count@
                }
            }),
            final(self).block_transactions@.len() == 0,
            !final(self).proof_checked,
            final(self).ledger == old(self).ledger,
            final(self).config == old(self).config,
            final(self).block_number == old(self).block_number,
            final(self).parent_hash == old(self).parent_hash,
            final(self).extrinsic_index == old(self).extrinsic_index,
            final(self).events == old(self).events,
    {
        self.proof_checked = false;
        let mut list: Vec<TransactionInfo> = Vec::new();
        std::mem::swap(&mut list, &mut self.block_transactions);
        let len = list.len();
        let total: u32 = if len == 0 {
            0
        } else {
            list[len - 1].block_chunks
        };
        if total != 0 {
            self.chunk_count.insert(n, total);
            self.transactions.insert(n, list);
        }
    }

    /// Unused authorization extent of account `who`.
    pub fn unused_account_authorization_extent(&self, who: AccountId) -> (r: AuthorizationExtent)
        requires
            self.wf(),
        ensures
            r == self.ledger.usage_of(ScopeView::Account(who)).unused,
    {
        self.ledger.usage(&AuthorizationScope::Account(who)).unused
    }

    /// Unused authorization extent of the preimage with hash `hash`.
    pub fn unused_preimage_authorization_extent(&self, hash: PreimageHash) -> (r: AuthorizationExtent)
        requires
            self.wf(),
        ensures
            r == self.ledger.usage_of(ScopeView::Preimage(hash@)).unused,
    {
        self.ledger.usage(&AuthorizationScope::Preimage(hash)).unused
    }

    /// Expires the authorizations that end at block `block`.
    pub fn expire_authorizations(&mut self, block: u64)
        requires
            old(self).wf(),
        ensures
            final(self).wf(),
            forall|s: ScopeView| #[trigger]
                final(self).ledger.usage_of(s) == expired_all(
                    old(self).ledger.usage_of(s),
                    old(self).ledger.expiring_at(block),
                    s,
                ),
            forall|b: u64| #[trigger]
                final(self).ledger.expiring_at(b) == if b == block {
                    Seq::<Authorization>::empty()
                } else {
                    old(self).ledger.expiring_at(b)
                },
            final(self).transactions == old(self).transactions,
            final(self).chunk_count == old(self).chunk_count,
            final(self).block_transactions == old(self).block_transactions,
            final(self).proof_checked == old(self).proof_checked,
            final(self).events == old(self).events,
            final(self).config == old(self).config,
            final(self).block_number == old(self).block_number,
    {
        self.ledger.expire(block);
    }

    /// The error, if any, of charging one transaction of `size` bytes to the
    /// scope that `origin` acts for, for data with content hash `hash`.
    pub open spec fn use_error(&self, origin: Origin, hash: Seq<u8>, size: u32) -> Option<Error> {
        match Self::scope_for(origin, hash) {
            None => Some(Error::BadOrigin),
            Some(s) => if can_consume(self.ledger.usage_of(s), size) {
                None
            } else {
                Some(Error::NotAuthorized)
            },
        }
    }

    /// The error, if any, of appending one record to the current block.
    pub open spec fn append_error(&self) -> Option<Error> {
        if self.extrinsic_index is None {
            Some(Error::BadContext)
        } else if self.block_transactions@.len() >= self.config.max_block_transactions {
            Some(Error::TooManyTransactions)
        } else {
            None
        }
    }

    /// The error, if any, of storing `data` on behalf of `origin`.
    pub open spec fn store_error(&self, origin: Origin, data: Seq<u8>) -> Option<Error> {
        if data.len() == 0 {
            Some(Error::EmptyTransaction)
        } else if data.len() > self.config.max_transaction_size {
            Some(Error::TransactionTooLarge)
        } else if self.use_error(origin, blake2_256_of(data), data.len() as u32) is Some {
            self.use_error(origin, blake2_256_of(data), data.len() as u32)
        } else {
            self.append_error()
        }
    }

    /// The record that renewing item `index` of block `block` refers to.
    pub open spec fn renewed_record(&self, block: u64, index: u32) -> Option<TransactionInfo> {
        if self.transactions@.contains_key(block) && index < self.transactions@[block]@.len() {
            Some(self.transactions@[block]@[index as int])
        } else {
            None
        }
    }

    /// The error, if any, of renewing item `index` of block `block` on behalf
    /// of `origin`.
    pub open spec fn renew_error(&self, origin: Origin, block: u64, index: u32) -> Option<Error> {
        match self.renewed_record(block, index) {
            None => Some(Error::RenewedNotFound),
            Some(info) => if self.use_error(origin, info.content_hash@, info.size) is Some {
                self.use_error(origin, info.content_hash@, info.size)
            } else {
                self.append_error()
            },
        }
    }

    /// The ledger, events and current block are unchanged but for the charge
    /// of one transaction of `size` bytes to `scope` and one more record.
    pub open spec fn charged(&self, old: &Pallet, scope: ScopeView, size: u32) -> bool {
        &&& self.ledger.expiries == old.ledger.expiries
        &&& forall|s: ScopeView| #[trigger]
            self.ledger.usage_of(s) == if s == scope {
                consumed(old.ledger.usage_of(s), size)
            } else {
                old.ledger.usage_of(s)
            }
        &&& self.config == old.config
        &&& self.block_number == old.block_number
        &&& self.parent_hash == old.parent_hash
        &&& self.extrinsic_index == old.extrinsic_index
        &&& self.transactions == old.transactions
        &&& self.chunk_count == old.chunk_count
        &&& self.proof_checked == old.proof_checked
    }

    /// Charges one transaction of `size` bytes to the scope that `origin` acts
    /// for: its account when signed, the preimage `hash` when unsigned.
    pub fn use_authorization(&mut self, origin: Origin, hash: &PreimageHash, size: u32) -> (r: Result<(), Error>)
        requires
            old(self).wf(),
        ensures
            final(self).wf(),
            match old(self).use_error(origin, hash@, size) {
                Some(e) => r == Err::<(), Error>(e) && *final(self) == *old(self),
                None => r is Ok && final(self).charged(
                    old(self),
                    Self::scope_for(origin, hash@).unwrap(),
                    size,
                ) && final(self).block_transactions == old(self).block_transactions
                    && final(self).events == old(self).events,
            },
    {
        let scope = match origin {
            Origin::Signed(who) => AuthorizationScope::Account(who),
            Origin::Unsigned => AuthorizationScope::Preimage(*hash),
            Origin::Root => {
                return Err(Error::BadOrigin);
            },
        };
        self.ledger.consume(scope, size)
    }

    /// Appends a record to the current block after checking the call context
    /// and the block's capacity, then charges the caller.
    fn charge_and_append(
        &mut self,
        origin: Origin,
        chunk_root: Hash32,
        content_hash: Hash32,
        size: u32,
    ) -> (r: Result<u32, Error>)
        requires
            old(self).wf(),
        ensures
            final(self).wf(),
            ({
                let err = if old(self).use_error(origin, content_hash@, size) is Some {
                    old(self).use_error(origin, content_hash@, size)
                } else {
                    old(self).append_error()
                };
                match err {
                    Some(e) => r == Err::<u32, Error>(e) && *final(self) == *old(self),
                    None => r == Ok::<u32, Error>(old(self).block_transactions@.len() as u32)
                        && final(self).charged(
                        old(self),
                        Self::scope_for(origin, content_hash@).unwrap(),
                        size,
                    ) && appended(
                        old(self).block_transactions@,
                        final(self).block_transactions@,
                        chunk_root@,
                        content_hash@,
                        size,
                    ) && final(self).events == old(self).events,
                }
            }),
    {
        let scope = match origin {
            Origin::Signed(who) => AuthorizationScope::Account(who),
            Origin::Unsigned => AuthorizationScope::Preimage(content_hash),
            Origin::Root => {
                return Err(Error::BadOrigin);
            },
        };
        let u = self.ledger.usage(&scope);
        if u.unused.transactions < 1 || u.unused.bytes < size as u64 {
            return Err(Error::NotAuthorized);
        }
        if self.extrinsic_index.is_none() {
            return Err(Error::BadContext);
        }
        let index = self.block_transactions.len();
        if index >= self.config.max_block_transactions as usize {
            return Err(Error::TooManyTransactions);
        }
        let charged = self.use_authorization(origin, &content_hash, size);
        assert(charged is Ok);
        let ghost before = self.block_transactions@;
        append_info(&mut self.block_transactions, chunk_root, content_hash, size);
        assert(self.block_transactions@.drop_last() =~= before);
        Ok(index as u32)
    }

    /// Registers `data` on behalf of `origin`: checks its size and the
    /// caller's rights, commits to its chunks and appends its record to the
    /// current block. Returns the record's index within the block.
    pub fn store(&mut self, origin: Origin, data: &Vec<u8>) -> (r: Result<u32, Error>)
        requires
            old(self).wf(),
        ensures
            final(self).wf(),
            match old(self).store_error(origin, data@) {
                Some(e) => r == Err::<u32, Error>(e) && *final(self) == *old(self),
                None => r == Ok::<u32, Error>(old(self).block_transactions@.len() as u32)
                    && final(self).charged(
                    old(self),
                    Self::scope_for(origin, blake2_256_of(data@)).unwrap(),
                    data@.len() as u32,
                ) && appended(
                    old(self).block_transactions@,
                    final(self).block_transactions@,
                    ordered_root_of(chunks_of(data@)),
                    blake2_256_of(data@),
                    data@.len() as u32,
                ) && final(self).events@ == old(self).events@.push(
                    Event::Stored { index: old(self).block_transactions@.len() as u32 },
                ),
            },
    {
        if data.len() == 0 {
            return Err(Error::EmptyTransaction);
        }
        if data.len() > self.config.max_transaction_size as usize {
            return Err(Error::TransactionTooLarge);
        }
        let size = data.len() as u32;
        let hash = content_hash(data);
        let chunks = split_chunks(data);
        assert(byte_seqs(chunks@) =~= chunks_of(data@));
        let root = ordered_root(chunks);
        let index = self.charge_and_append(origin, root, hash, size)?;
        self.events.push(Event::Stored { index });
        Ok(index)
    }

    /// Renews item `index` of block `block` on behalf of `origin`: charges the
    /// caller as storing it again would, and appends a copy of its record to
    /// the current block. Returns the new record's index within the block.
    pub fn renew(&mut self, origin: Origin, block: u64, index: u32) -> (r: Result<u32, Error>)
        requires
            old(self).wf(),
        ensures
            final(self).wf(),
            match old(self).renew_error(origin, block, index) {
                Some(e) => r == Err::<u32, Error>(e) && *final(self) == *old(self),
                None => {
                    let info = old(self).renewed_record(block, index).unwrap();
                    &&& r == Ok::<u32, Error>(old(self).block_transactions@.len() as u32)
                    &&& final(self).charged(
                        old(self),
                        Self::scope_for(origin, info.content_hash@).unwrap(),
                        info.size,
                    )
                    &&& appended(
                        old(self).block_transactions@,
                        final(self).block_transactions@,
                        info.chunk_root@,
                        info.content_hash@,
                        info.size,
                    )
                    &&& final(self).events@ == old(self).events@.push(
                        Event::Renewed { index: old(self).block_transactions@.len() as u32 },
                    )
                },
            },
    {
        let info = match self.transactions.get(&block) {
            Some(list) => {
                if index as usize >= list.len() {
                    return Err(Error::RenewedNotFound);
                }
                list[index as usize]
            },
            None => {
                return Err(Error::RenewedNotFound);
            },
        };
        let new_index = self.charge_and_append(origin, info.chunk_root, info.content_hash, info.size)?;
        self.events.push(Event::Renewed { index: new_index });
        Ok(new_index)
    }

    /// The block-wide chunk index that the current block challenges.
    pub open spec fn challenged_chunk(&self) -> int {
        be_u64(self.parent_hash@) % self.chunk_count_at(self.target_block())
    }

    /// The record of the item that owns the challenged chunk.
    pub open spec fn challenged_item(&self) -> TransactionInfo {
        let list = self.transactions@[self.target_block()]@;
        list[first_at_least(list, self.challenged_chunk())]
    }

    /// The trie key of the challenged chunk within its item.
    pub open spec fn challenged_key(&self) -> Seq<u8> {
        compact_u32(offset_in_item(self.challenged_item(), self.challenged_chunk()) as u32)
    }

    /// The error, if any, of a proof check by `origin` before the proof is read.
    pub open spec fn proof_error(&self, origin: Origin) -> Option<Error> {
        if origin != Origin::Unsigned {
            Some(Error::BadOrigin)
        } else if self.proof_checked {
            Some(Error::DoubleCheck)
        } else if !self.proof_due() {
            Some(Error::UnexpectedProof)
        } else {
            None
        }
    }

    /// The record and in-item position of the chunk that the current block
    /// challenges.
    pub fn proof_target(&self, origin: Origin) -> (r: Result<(TransactionInfo, u32), Error>)
        requires
            self.wf(),
        ensures
            match self.proof_error(origin) {
                Some(e) => r == Err::<(TransactionInfo, u32), Error>(e),
                None => {
                    &&& 0 <= self.challenged_chunk() < self.chunk_count_at(self.target_block())
                    &&& 0 <= first_at_least(
                        self.transactions@[self.target_block()]@,
                        self.challenged_chunk(),
                    ) < self.transactions@[self.target_block()]@.len()
                    &&& r == Ok::<(TransactionInfo, u32), Error>(
                        (
                            self.challenged_item(),
                            offset_in_item(self.challenged_item(), self.challenged_chunk())
                                as u32,
                        ),
                    )
                },
            },
    {
        if origin != Origin::Unsigned {
            return Err(Error::BadOrigin);
        }
        if self.proof_checked {
            return Err(Error::DoubleCheck);
        }
        let target = self.block_number.saturating_sub(self.config.storage_period);
        if target == 0 {
            return Err(Error::UnexpectedProof);
        }
        let total = self.chunk_count_of(target);
        if total == 0 {
            return Err(Error::UnexpectedProof);
        }
        let selected = random_chunk(&self.parent_hash, total);
        match self.transactions.get(&target) {
            Some(list) => {
                proof {
                    lemma_running_totals_non_decreasing(list@);
                }
                let i = lookup_by_chunk(list, selected);
                if i >= list.len() {
                    proof {
                        assert(list@[list@.len() - 1].block_chunks < selected);
                    }
                    return Err(Error::MissingStateData);
                }
                let info = list[i];
                let offset = chunk_offset_within_item(&info, selected);
                Ok((info, offset))
            },
            None => Err(Error::MissingStateData),
        }
    }

    /// Concludes the current block's proof check on the verifier's verdict
    /// `valid`: records the check when it holds, fails otherwise.
    pub fn conclude_proof(&mut self, valid: bool) -> (r: Result<(), Error>)
        requires
            old(self).wf(),
        ensures
            final(self).wf(),
            r is Ok <==> valid,
            !valid ==> r == Err::<(), Error>(Error::InvalidProof) && *final(self) == *old(self),
            valid ==> {
                &&& final(self).proof_checked
                &&& final(self).events@ == old(self).events@.push(Event::ProofChecked)
                &&& final(self).ledger == old(self).ledger
                &&& final(self).transactions == old(self).transactions
                &&& final(self).chunk_count == old(self).chunk_count
                &&& final(self).block_transactions == old(self).block_transactions
                &&& final(self).config == old(self).config
                &&& final(self).block_number == old(self).block_number
            },
    {
        if !valid {
            return Err(Error::InvalidProof);
        }
        self.proof_checked = true;
        self.events.push(Event::ProofChecked);
        Ok(())
    }

    /// Checks the storage proof for the block that left the retention window:
    /// the challenged chunk, picked from the parent hash, must be proved to
    /// be in the chunk trie of the item that owns it.
    pub fn check_proof(&mut self, origin: Origin, proof: &StorageProof) -> (r: Result<(), Error>)
        requires
            old(self).wf(),
        ensures
            final(self).wf(),
            match old(self).proof_error(origin) {
                Some(e) => r == Err::<(), Error>(e) && *final(self) == *old(self),
                None => {
                    let valid = trie_proof_holds(
                        old(self).challenged_item().chunk_root@,
                        byte_seqs(proof.proof@),
                        old(self).challenged_key(),
                        proof.chunk@,
                    );
                    &&& r is Ok <==> valid
                    &&& !valid ==> r == Err::<(), Error>(Error::InvalidProof) && *final(self)
                        == *old(self)
                    &&& valid ==> {
                        &&& final(self).proof_checked
                        &&& final(self).events@ == old(self).events@.push(Event::ProofChecked)
                        &&& final(self).ledger == old(self).ledger
                        &&& final(self).transactions == old(self).transactions
                        &&& final(self).chunk_count == old(self).chunk_count
                        &&& final(self).block_transactions == old(self).block_transactions
                        &&& final(self).config == old(self).config
                        &&& final(self).block_number == old(self).block_number
                    }
                },
            },
    {
        let (info, offset) = self.proof_target(origin)?;
        let key = encode_index(offset);
        let valid = verify_proof(&info.chunk_root, &proof.proof, &key, &proof.chunk);
        self.conclude_proof(valid)
    }

    /// The error, if any, of granting an authorization in the current block.
    pub open spec fn authorize_error(&self) -> Option<Error> {
        if self.block_number + self.config.authorization_period > u64::MAX {
            Some(Error::Overflow)
        } else if self.ledger.expiring_at(
            (self.block_number + self.config.authorization_period) as u64,
        ).len() >= self.config.max_block_authorization_expiries {
            Some(Error::TooManyAuthorizations)
        } else {
            None
        }
    }

    /// The ledger after a grant to `scope` of `transactions` transactions and
    /// `bytes` bytes that expires one authorization period from now.
    pub open spec fn granted(&self, old: &Pallet, scope: AuthorizationScope, transactions: u32, bytes: u64) -> bool {
        let expiry = (old.block_number + old.config.authorization_period) as u64;
        &&& forall|s: ScopeView| #[trigger]
            self.ledger.usage_of(s) == if s == scope@ {
                credited(old.ledger.usage_of(s), transactions, bytes)
            } else {
                old.ledger.usage_of(s)
            }
        &&& forall|b: u64| #[trigger]
            self.ledger.expiring_at(b) == if b == expiry {
                old.ledger.expiring_at(b).push(
                    Authorization { scope, extent: AuthorizationExtent { transactions, bytes } },
                )
            } else {
                old.ledger.expiring_at(b)
            }
        &&& self.config == old.config
        &&& self.block_number == old.block_number
        &&& self.transactions == old.transactions
        &&& self.chunk_count == old.chunk_count
        &&& self.block_transactions == old.block_transactions
        &&& self.proof_checked == old.proof_checked
    }

    /// Grants `scope` rights for `transactions` transactions and `bytes` bytes
    /// until one authorization period from now.
    fn authorize(&mut self, scope: AuthorizationScope, transactions: u32, bytes: u64) -> (r: Result<(), Error>)
        requires
            old(self).wf(),
        ensures
            final(self).wf(),
            match old(self).authorize_error() {
                Some(e) => r == Err::<(), Error>(e) && *final(self) == *old(self),
                None => r is Ok && final(self).granted(old(self), scope, transactions, bytes)
                    && final(self).events == old(self).events,
            },
    {
        let expiry = match self.block_number.checked_add(self.config.authorization_period) {
            Some(e) => e,
            None => {
                return Err(Error::Overflow);
            },
        };
        self.ledger.grant(
            scope,
            transactions,
            bytes,
            expiry,
            self.config.max_block_authorization_expiries,
        )
    }

    /// Lets account `who` store `transactions` items of `bytes` bytes in all,
    /// until one authorization period from now. Only the root origin may call.
    pub fn authorize_account(&mut self, origin: Origin, who: AccountId, transactions: u32, bytes: u64) -> (r:
        Result<(), Error>)
        requires
            old(self).wf(),
        ensures
            final(self).wf(),
            origin != Origin::Root ==> r == Err::<(), Error>(Error::BadOrigin) && *final(self)
                == *old(self),
            origin == Origin::Root ==> match old(self).authorize_error() {
                Some(e) => r == Err::<(), Error>(e) && *final(self) == *old(self),
                None => r is Ok && final(self).granted(
                    old(self),
                    AuthorizationScope::Account(who),
                    transactions,
                    bytes,
                ) && final(self).events@ == old(self).events@.push(
                    Event::AccountUploadAuthorized { who, transactions, max_size: bytes },
                ),
            },
    {
        if origin != Origin::Root {
            return Err(Error::BadOrigin);
        }
        self.authorize(AuthorizationScope::Account(who), transactions, bytes)?;
        self.events.push(Event::AccountUploadAuthorized { who, transactions, max_size: bytes });
        Ok(())
    }

    /// Lets anyone store the one blob with hash `hash`, of at most `bytes`
    /// bytes, until one authorization period from now. Only the root origin
    /// may call.
    pub fn authorize_preimage(&mut self, origin: Origin, hash: PreimageHash, bytes: u64) -> (r: Result<(), Error>)
        requires
            old(self).wf(),
        ensures
            final(self).wf(),
            origin != Origin::Root ==> r == Err::<(), Error>(Error::BadOrigin) && *final(self)
                == *old(self),
            origin == Origin::Root ==> match old(self).authorize_error() {
                Some(e) => r == Err::<(), Error>(e) && *final(self) == *old(self),
                None => r is Ok && final(self).granted(
                    old(self),
                    AuthorizationScope::Preimage(hash),
                    1,
                    bytes,
                ) && final(self).events@ == old(self).events@.push(
                    Event::PreimageUploadAuthorized { hash, max_size: bytes },
                ),
            },
    {
        if origin != Origin::Root {
            return Err(Error::BadOrigin);
        }
        self.authorize(AuthorizationScope::Preimage(hash), 1, bytes)?;
        self.events.push(Event::PreimageUploadAuthorized { hash, max_size: bytes });
        Ok(())
    }
}

/// In every committed block, the running chunk totals never decrease and the
/// last one is the block's recorded total chunk count.
pub proof fn lemma_committed_block_totals(p: &Pallet, b: u64)
    requires
        p.wf(),
        p.transactions@.contains_key(b),
    ensures
        non_decreasing(p.transactions@[b]@),
        p.transactions@[b]@.len() > 0,
        p.transactions@[b]@.last().block_chunks == p.chunk_count_at(b),
{
    lemma_running_totals_non_decreasing(p.transactions@[b]@);
}

} // verus!
