//! The per-block transaction index: records of registered items with running
//! chunk totals, and the lookup of the item that owns a block-wide chunk index.
use vstd::prelude::*;

use crate::chunks::{chunks_for, num_chunks};

verus! {

/// A 32-byte digest.
pub type Hash32 = [u8; 32];

/// What the ledger keeps of one registered item.
#[derive(Clone, Copy, Debug)]
pub struct TransactionInfo {
    /// Root of the chunk trie of the item's data.
    pub chunk_root: Hash32,
    /// Plain hash of the item's data.
    pub content_hash: Hash32,
    /// Size of the item's data in bytes.
    pub size: u32,
    /// Chunks contributed by this item and all earlier items of its block.
    pub block_chunks: u32,
}

/// `a + b`, saturated at `u32::MAX`.
pub open spec fn sat_add_u32(a: int, b: int) -> int {
    if a + b > u32::MAX {
        u32::MAX as int
    } else {
        a + b
    }
}

/// The running chunk total before item `i` of `list`.
pub open spec fn chunks_before(list: Seq<TransactionInfo>, i: int) -> int {
    if i <= 0 {
        0
    } else {
        list[i - 1].block_chunks as int
    }
}

/// Every item's running total is the previous total plus its own chunk count
/// (saturating).
pub open spec fn running_totals_ok(list: Seq<TransactionInfo>) -> bool {
    forall|i: int|
        0 <= i < list.len() ==> #[trigger] list[i].block_chunks == sat_add_u32(
            chunks_before(list, i),
            chunks_for(list[i].size as int),
        )
}

/// The running totals never decrease along the list.
pub open spec fn non_decreasing(list: Seq<TransactionInfo>) -> bool {
    forall|i: int, j: int|
        0 <= i <= j < list.len() ==> #[trigger] list[i].block_chunks <= #[trigger] list[j].block_chunks
}

/// The total chunk count of a block's list: its last running total, or zero.
pub open spec fn total_chunks(list: Seq<TransactionInfo>) -> int {
    chunks_before(list, list.len() as int)
}

/// `r` is the first position of `list` whose running total is at least `k`
/// (`list.len()` when there is none).
pub open spec fn is_first_at_least(list: Seq<TransactionInfo>, k: int, r: int) -> bool {
    &&& 0 <= r <= list.len()
    &&& forall|i: int| 0 <= i < r ==> (#[trigger] list[i].block_chunks) < k
    &&& r < list.len() ==> list[r].block_chunks >= k
}

/// The first position of `list` whose running total is at least `k`.
pub open spec fn first_at_least(list: Seq<TransactionInfo>, k: int) -> int {
    choose|r: int| is_first_at_least(list, k, r)
}

/// At most one position is the first whose running total is at least `k`.
pub proof fn lemma_first_at_least_unique(list: Seq<TransactionInfo>, k: int, r: int)
    requires
        is_first_at_least(list, k, r),
    ensures
        first_at_least(list, k) == r,
{
    let c = first_at_least(list, k);
    assert(is_first_at_least(list, k, c));
    if c < r {
        assert(list[c].block_chunks < k);
    } else if r < c {
        assert(list[r].block_chunks < k);
    }
}

/// Running totals built by `running_totals_ok` never decrease.
pub proof fn lemma_running_totals_non_decreasing(list: Seq<TransactionInfo>)
    requires
        running_totals_ok(list),
    ensures
        non_decreasing(list),
{
    assert forall|i: int, j: int| 0 <= i <= j < list.len() implies #[trigger] list[i].block_chunks
        <= #[trigger] list[j].block_chunks by {
        lemma_totals_grow_from(list, i, j);
    }
}

proof fn lemma_totals_grow_from(list: Seq<TransactionInfo>, i: int, j: int)
    requires
        running_totals_ok(list),
        0 <= i <= j < list.len(),
    ensures
        list[i].block_chunks <= list[j].block_chunks,
    decreases j - i,
{
    if i < j {
        lemma_totals_grow_from(list, i, j - 1);
        assert(list[j].block_chunks == sat_add_u32(
            chunks_before(list, j),
            chunks_for(list[j].size as int),
        ));
    }
}

/// The lookup by chunk index inverts the running totals: for a block-wide
/// chunk index `k` below the block's total that is not itself a running total,
/// the first item whose running total is at least `k` is the one whose chunk
/// range `[block_chunks - chunks_for(size), block_chunks)` holds `k`.
pub proof fn lemma_lookup_finds_owner(list: Seq<TransactionInfo>, k: int, r: int)
    requires
        running_totals_ok(list),
        0 <= k < total_chunks(list),
        forall|i: int| 0 <= i < list.len() ==> (#[trigger] list[i].block_chunks) != k,
        is_first_at_least(list, k, r),
    ensures
        0 <= r < list.len(),
        list[r].block_chunks - chunks_for(list[r].size as int) <= k < list[r].block_chunks,
{
    if r == list.len() {
        assert(list[r - 1].block_chunks < k);
    }
    assert(list[r].block_chunks == sat_add_u32(
        chunks_before(list, r),
        chunks_for(list[r].size as int),
    ));
}

/// Appends a record for an item of `size` bytes, extending the running total.
pub fn append_info(list: &mut Vec<TransactionInfo>, chunk_root: Hash32, content_hash: Hash32, size: u32)
    requires
        running_totals_ok(old(list)@),
    ensures
        running_totals_ok(final(list)@),
        final(list)@ == old(list)@.push(
            TransactionInfo {
                chunk_root,
                content_hash,
                size,
                block_chunks: sat_add_u32(total_chunks(old(list)@), chunks_for(size as int))
                    as u32,
            },
        ),
{
    let len = list.len();
    let prev: u32 = if len == 0 {
        0
    } else {
        list[len - 1].block_chunks
    };
    let block_chunks = prev.saturating_add(num_chunks(size));
    let ghost before = list@;
    list.push(TransactionInfo { chunk_root, content_hash, size, block_chunks });
    proof {
        assert forall|i: int| 0 <= i < list@.len() implies #[trigger] list@[i].block_chunks
            == sat_add_u32(chunks_before(list@, i), chunks_for(list@[i].size as int)) by {
            if i < before.len() {
                assert(list@[i] == before[i]);
                assert(chunks_before(list@, i) == chunks_before(before, i));
            }
        }
    }
}

/// Position of the first record whose running total is at least `k`, found by
/// binary search (`list.len()` when there is none).
pub fn lookup_by_chunk(list: &Vec<TransactionInfo>, k: u32) -> (r: usize)
    requires
        non_decreasing(list@),
    ensures
        is_first_at_least(list@, k as int, r as int),
        r == first_at_least(list@, k as int),
{
    let mut lo: usize = 0;
    let mut hi: usize = list.len();
    while lo < hi
        invariant
            0 <= lo <= hi <= list@.len(),
            non_decreasing(list@),
            forall|i: int| 0 <= i < lo ==> (#[trigger] list@[i].block_chunks) < k,
            forall|i: int| hi <= i < list@.len() ==> (#[trigger] list@[i].block_chunks) >= k,
        decreases hi - lo,
    {
        let mid = lo + (hi - lo) / 2;
        if list[mid].block_chunks < k {
            proof {
                assert forall|i: int| 0 <= i < mid + 1 implies (#[trigger] list@[i].block_chunks)
                    < k by {
                    assert(list@[i].block_chunks <= list@[mid as int].block_chunks);
                }
            }
            lo = mid + 1;
        } else {
            proof {
                assert forall|i: int| mid <= i < list@.len() implies (
                #[trigger] list@[i].block_chunks) >= k by {
                    assert(list@[mid as int].block_chunks <= list@[i].block_chunks);
                }
            }
            hi = mid;
        }
    }
    proof {
        lemma_first_at_least_unique(list@, k as int, lo as int);
    }
    lo
}

/// Position of chunk `k` within the item `info`, counted from the item's first
/// chunk: `k - (block_chunks - chunks_for(size))`, each step saturating at zero.
pub open spec fn offset_in_item(info: TransactionInfo, k: int) -> int {
    let first = if info.block_chunks >= chunks_for(info.size as int) {
        info.block_chunks - chunks_for(info.size as int)
    } else {
        0
    };
    if k >= first {
        k - first
    } else {
        0
    }
}

/// Position of chunk `k` within the item `info`, counted from its first chunk.
pub fn chunk_offset_within_item(info: &TransactionInfo, k: u32) -> (r: u32)
    ensures
        r == offset_in_item(*info, k as int),
{
    let first = info.block_chunks.saturating_sub(num_chunks(info.size));
    k.saturating_sub(first)
}

} // verus!
