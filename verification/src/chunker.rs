//! Splitting a file into overlapping windows of lines.
//!
//! A file of `n` lines with window `w` and overlap `o < w` yields no chunk
//! when `n <= w`. Otherwise chunk `k` starts at line index `k * (w - o)` and
//! ends `w` lines later or at the file's end, for every `k` whose start lies
//! inside the file.

use vstd::prelude::*;

verus! {

/// A window of lines: the half-open range `[start, end)` of line indices
/// that start at 0. As line numbers that start at 1 it is `start + 1 ..= end`.
#[derive(Debug, Clone, Copy, PartialEq, Eq, Structural)]
pub struct ChunkRange {
    pub start: usize,
    pub end: usize,
}

/// The distance between the starts of consecutive chunks.
pub open spec fn stride(window: int, overlap: int) -> int {
    window - overlap
}

/// The number of chunks of a file of `n` lines.
pub open spec fn chunk_count(n: int, window: int, overlap: int) -> int {
    if n <= window {
        0
    } else {
        (n + stride(window, overlap) - 1) / stride(window, overlap)
    }
}

/// The line index at which chunk `k` starts.
pub open spec fn chunk_start(k: int, window: int, overlap: int) -> int {
    k * stride(window, overlap)
}

/// The line index at which chunk `k` ends, exclusive.
pub open spec fn chunk_end(k: int, n: int, window: int, overlap: int) -> int {
    if chunk_start(k, window, overlap) + window <= n {
        chunk_start(k, window, overlap) + window
    } else {
        n
    }
}

/// The chunks of a file of `n` lines, in order.
pub open spec fn chunks_of(n: int, window: int, overlap: int) -> Seq<(int, int)> {
    Seq::new(
        chunk_count(n, window, overlap) as nat,
        |k: int| (chunk_start(k, window, overlap), chunk_end(k, n, window, overlap)),
    )
}

/// The ranges of a list of chunks as pairs of mathematical integers.
pub open spec fn ranges_view(v: Seq<ChunkRange>) -> Seq<(int, int)> {
    Seq::new(v.len(), |i: int| (v[i].start as int, v[i].end as int))
}

/// The chunk count is the number of strides needed to reach the file's end:
/// the starts of all chunks lie inside the file, the next start does not.
pub proof fn lemma_chunk_count(n: int, window: int, overlap: int)
    requires
        0 <= overlap < window,
        window < n,
    ensures
        chunk_count(n, window, overlap) >= 1,
        chunk_start(chunk_count(n, window, overlap) - 1, window, overlap) < n,
        chunk_start(chunk_count(n, window, overlap), window, overlap) >= n,
{
    let s = stride(window, overlap);
    let c = chunk_count(n, window, overlap);
    assert(c == (n + s - 1) / s);
    assert(c * s >= n && (c - 1) * s < n && c >= 1) by (nonlinear_arith)
        requires
            s > 0,
            n > 0,
            c == (n + s - 1) / s,
    ;
}

/// A count with the two defining properties is the chunk count.
proof fn lemma_chunk_count_unique(n: int, window: int, overlap: int, k: int)
    requires
        0 <= overlap < window,
        window < n,
        k >= 1,
        chunk_start(k - 1, window, overlap) < n,
        chunk_start(k, window, overlap) >= n,
    ensures
        k == chunk_count(n, window, overlap),
{
    let s = stride(window, overlap);
    let c = chunk_count(n, window, overlap);
    lemma_chunk_count(n, window, overlap);
    assert(k == c) by (nonlinear_arith)
        requires
            s > 0,
            (k - 1) * s < n,
            k * s >= n,
            (c - 1) * s < n,
            c * s >= n,
    ;
}

/// The chunks of a file of `n` lines.
pub fn chunk_ranges(n: usize, window: usize, overlap: usize) -> (chunks: Vec<ChunkRange>)
    requires
        overlap < window,
    ensures
        ranges_view(chunks@) == chunks_of(n as int, window as int, overlap as int),
{
    let mut chunks: Vec<ChunkRange> = Vec::new();
    if n <= window {
        assert(ranges_view(chunks@) =~= chunks_of(n as int, window as int, overlap as int));
        return chunks;
    }
    let step: usize = window - overlap;
    let mut start: usize = 0;
    let mut done = false;
    let ghost mut k: int = 0;
    while !done
        invariant
            overlap < window < n,
            step == window - overlap,
            k == chunks@.len(),
            !done ==> start == chunk_start(k, window as int, overlap as int) && start < n,
            done ==> k >= 1 && chunk_start(k - 1, window as int, overlap as int) < n
                && chunk_start(k, window as int, overlap as int) >= n,
            forall|i: int|
                0 <= i < k ==> (#[trigger] chunks@[i]).start == chunk_start(
                    i,
                    window as int,
                    overlap as int,
                ) && chunks@[i].end == chunk_end(i, n as int, window as int, overlap as int),
        decreases
                if done {
                    0int
                } else {
                    n - start + 1
                },
    {
        let end: usize = if n - start < window {
            n
        } else {
            start + window
        };
        chunks.push(ChunkRange { start, end });
        proof {
            assert((k + 1) * (window - overlap) == k * (window - overlap) + (window - overlap))
                by (nonlinear_arith);
            k = k + 1;
        }
        if n - start <= step {
            done = true;
        } else {
            start = start + step;
        }
    }
    proof {
        lemma_chunk_count_unique(n as int, window as int, overlap as int, k);
        assert(ranges_view(chunks@) =~= chunks_of(n as int, window as int, overlap as int));
    }
    chunks
}

/// Every line of a chunked file lies in some chunk: for `n > window` the
/// chunks together cover the lines `1 ..= n`.
pub proof fn lemma_chunks_cover(n: int, window: int, overlap: int, line: int)
    requires
        0 <= overlap < window,
        window < n,
        1 <= line <= n,
    ensures
        exists|k: int|
            0 <= k < chunk_count(n, window, overlap) && chunk_start(k, window, overlap) < line
                <= #[trigger] chunk_end(k, n, window, overlap),
{
    let s = stride(window, overlap);
    let k = (line - 1) / s;
    lemma_chunk_count(n, window, overlap);
    let c = chunk_count(n, window, overlap);
    assert(k * s <= line - 1 < k * s + s && k >= 0) by (nonlinear_arith)
        requires
            s > 0,
            line >= 1,
            k == (line - 1) / s,
    ;
    assert(k < c) by (nonlinear_arith)
        requires
            s > 0,
            k * s <= line - 1,
            line <= n,
            c * s >= n,
    ;
    assert(chunk_start(k, window, overlap) < line <= chunk_end(k, n, window, overlap));
}

/// The number of lines that chunk `k` shares with the chunk after it.
pub open spec fn shared_lines(k: int, n: int, window: int, overlap: int) -> int {
    chunk_end(k, n, window, overlap) - chunk_start(k + 1, window, overlap)
}

/// Consecutive chunks share exactly `overlap` lines wherever the first of
/// the two is a full window. A chunk cut short by the file's end shares
/// what is left of it, which is less.
pub proof fn lemma_chunks_overlap(n: int, window: int, overlap: int, k: int)
    requires
        0 <= overlap < window,
        window < n,
        0 <= k,
        k + 1 < chunk_count(n, window, overlap),
    ensures
        chunk_start(k, window, overlap) + window <= n ==> shared_lines(k, n, window, overlap)
            == overlap,
        chunk_start(k, window, overlap) + window > n ==> 0 < shared_lines(
            k,
            n,
            window,
            overlap,
        ) < overlap,
{
    let s = stride(window, overlap);
    let c = chunk_count(n, window, overlap);
    lemma_chunk_count(n, window, overlap);
    assert((k + 1) * s == k * s + s) by (nonlinear_arith);
    assert((k + 1) * s < n) by (nonlinear_arith)
        requires
            s > 0,
            k + 1 <= c - 1,
            (c - 1) * s < n,
    ;
}

/// A file of at most `window` lines has no chunks.
pub proof fn lemma_small_file_has_no_chunks(n: int, window: int, overlap: int)
    requires
        n <= window,
    ensures
        chunks_of(n, window, overlap).len() == 0,
{
}

} // verus!
