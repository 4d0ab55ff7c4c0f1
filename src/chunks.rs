//! Fixed-size chunking of data blobs.
use vstd::prelude::*;

verus! {

/// Size in bytes of one chunk of a stored blob (the last chunk may be shorter).
pub const CHUNK_SIZE: usize = 256;

/// Number of chunks that a blob of `n` bytes splits into: `ceil(n / CHUNK_SIZE)`.
pub open spec fn chunks_for(n: int) -> int {
    (n + CHUNK_SIZE - 1) / (CHUNK_SIZE as int)
}

/// Chunk `i` of `data`: bytes `[i * CHUNK_SIZE, min((i + 1) * CHUNK_SIZE, len))`.
pub open spec fn chunk_at(data: Seq<u8>, i: int) -> Seq<u8> {
    let start = i * CHUNK_SIZE;
    let end = if (i + 1) * CHUNK_SIZE <= data.len() {
        (i + 1) * CHUNK_SIZE
    } else {
        data.len() as int
    };
    data.subrange(start, end)
}

/// `chunks_for(n)` is the ceiling of `n / CHUNK_SIZE`: the least count of
/// chunks whose total capacity covers `n` bytes; no bytes need no chunks.
pub proof fn lemma_chunks_for_is_ceiling(n: nat)
    ensures
        chunks_for(n as int) >= 0,
        chunks_for(n as int) * CHUNK_SIZE >= n,
        n > 0 ==> (chunks_for(n as int) - 1) * CHUNK_SIZE < n,
        chunks_for(0) == 0,
{
    let c = chunks_for(n as int);
    assert(c * 256 <= n + 255 && n + 255 < c * 256 + 256) by (nonlinear_arith)
        requires
            c == (n + 255) / 256,
    ;
}

/// Number of chunks in a blob of `bytes` bytes.
pub fn num_chunks(bytes: u32) -> (r: u32)
    ensures
        r == chunks_for(bytes as int),
{
    let c: u64 = ((bytes as u64) + (CHUNK_SIZE as u64) - 1) / (CHUNK_SIZE as u64);
    c as u32
}

/// Splits `data` into consecutive chunks of `CHUNK_SIZE` bytes, the last one
/// possibly shorter.
pub fn split_chunks(data: &Vec<u8>) -> (r: Vec<Vec<u8>>)
    ensures
        r@.len() == chunks_for(data@.len() as int),
        forall|i: int| 0 <= i < r@.len() ==> #[trigger] r@[i]@ == chunk_at(data@, i),
{
    let len = data.len();
    let mut out: Vec<Vec<u8>> = Vec::new();
    let mut start: usize = 0;
    while start < len
        invariant
            len == data@.len(),
            start <= len,
            start < len ==> start == out@.len() * CHUNK_SIZE,
            start >= len ==> out@.len() == chunks_for(data@.len() as int),
            forall|i: int| 0 <= i < out@.len() ==> #[trigger] out@[i]@ == chunk_at(data@, i),
        decreases len - start,
    {
        let end: usize = if len - start >= CHUNK_SIZE {
            start + CHUNK_SIZE
        } else {
            len
        };
        let mut chunk: Vec<u8> = Vec::new();
        let mut j: usize = start;
        while j < end
            invariant
                start <= j <= end <= len,
                len == data@.len(),
                chunk@ == data@.subrange(start as int, j as int),
            decreases end - j,
        {
            chunk.push(data[j]);
            assert(chunk@ =~= data@.subrange(start as int, j + 1));
            j = j + 1;
        }
        proof {
            let k = out@.len() as int;
            assert(chunk@ == chunk_at(data@, k));
        }
        proof {
            let k = out@.len() as int;
            let n = data@.len() as int;
            assert(end == n ==> k + 1 == (n + 255) / 256) by (nonlinear_arith)
                requires
                    start == k * 256,
                    start < n,
                    end == n || end == start + 256,
                    end <= start + 256,
            ;
        }
        out.push(chunk);
        start = end;
    }
    out
}

} // verus!
