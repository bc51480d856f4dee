//! A model of terminator-delimited records.
//!
//! A sequence is read as a run of chunks, each ended by a terminator
//! element (a newline for line-oriented tools, `%` for fortune files).
//! A trailing run without a terminator still counts as one chunk.

use vstd::prelude::*;

verus! {

/// The end (exclusive) of the chunk that starts at offset `i`: one past
/// the first terminator at or after `i`, or the end of the sequence.
pub open spec fn chunk_end<T>(s: Seq<T>, term: T, i: int) -> int
    decreases s.len() - i,
{
    if i < 0 || i >= s.len() {
        s.len() as int
    } else if s[i] == term {
        i + 1
    } else {
        chunk_end(s, term, i + 1)
    }
}

/// The offset at which chunk number `k` starts; the sequence's length
/// once fewer than `k` chunks remain.
pub open spec fn chunk_start<T>(s: Seq<T>, term: T, k: nat) -> int
    decreases k,
{
    if k == 0 {
        0
    } else {
        chunk_end(s, term, chunk_start(s, term, (k - 1) as nat))
    }
}

/// How many chunks start at or after offset `i`.
pub open spec fn chunk_count_from<T>(s: Seq<T>, term: T, i: int) -> nat
    decreases s.len() - i,
    when 0 <= i <= s.len()
    via chunk_count_from_dec::<T>
{
    if i < 0 || i >= s.len() {
        0
    } else {
        1 + chunk_count_from(s, term, chunk_end(s, term, i))
    }
}

#[via_fn]
proof fn chunk_count_from_dec<T>(s: Seq<T>, term: T, i: int) {
    if 0 <= i < s.len() {
        lemma_chunk_end_bounds(s, term, i);
    }
}

/// The number of chunks in the whole sequence.
pub open spec fn chunk_count<T>(s: Seq<T>, term: T) -> nat {
    chunk_count_from(s, term, 0)
}

/// A chunk's end lies past its start and within the sequence.
pub proof fn lemma_chunk_end_bounds<T>(s: Seq<T>, term: T, i: int)
    requires
        0 <= i <= s.len(),
    ensures
        i <= chunk_end(s, term, i) <= s.len(),
        i < s.len() ==> i < chunk_end(s, term, i),
    decreases s.len() - i,
{
    if i < s.len() && s[i] != term {
        lemma_chunk_end_bounds(s, term, i + 1);
    }
}

/// Chunk starts are valid offsets, and the chunks that remain beyond
/// chunk `k` are the total count less `k`, down to zero.
pub proof fn lemma_chunk_start_count<T>(s: Seq<T>, term: T, k: nat)
    ensures
        0 <= chunk_start(s, term, k) <= s.len(),
        chunk_count_from(s, term, chunk_start(s, term, k)) == if k <= chunk_count(s, term) {
            (chunk_count(s, term) - k) as nat
        } else {
            0nat
        },
    decreases k,
{
    if k > 0 {
        lemma_chunk_start_count(s, term, (k - 1) as nat);
        let p = chunk_start(s, term, (k - 1) as nat);
        lemma_chunk_end_bounds(s, term, p);
    }
}

/// Later chunks never start earlier.
pub proof fn lemma_chunk_start_monotone<T>(s: Seq<T>, term: T, k1: nat, k2: nat)
    requires
        k1 <= k2,
    ensures
        chunk_start(s, term, k1) <= chunk_start(s, term, k2),
    decreases k2 - k1,
{
    if k1 < k2 {
        lemma_chunk_start_monotone(s, term, k1, (k2 - 1) as nat);
        let p = chunk_start(s, term, (k2 - 1) as nat);
        lemma_chunk_start_count(s, term, (k2 - 1) as nat);
        lemma_chunk_end_bounds(s, term, p);
    }
}

/// Once every chunk is consumed, the start offset has reached the end.
pub proof fn lemma_chunk_start_saturates<T>(s: Seq<T>, term: T, k: nat)
    requires
        k >= chunk_count(s, term),
    ensures
        chunk_start(s, term, k) == s.len(),
{
    lemma_chunk_start_count(s, term, k);
}

/// Splitting a sequence at any offset and joining the parts again gives
/// back the sequence.
pub proof fn lemma_split_rejoin<T>(s: Seq<T>, i: int)
    requires
        0 <= i <= s.len(),
    ensures
        s.subrange(0, i) + s.subrange(i, s.len() as int) =~= s,
{
}

/// Find the end of the chunk of `data` that starts at offset `i`.
pub fn chunk_end_u8(data: &[u8], term: u8, i: usize) -> (j: usize)
    requires
        i <= data@.len(),
    ensures
        j == chunk_end(data@, term, i as int),
        i <= j <= data@.len(),
{
    let n = data.len();
    let mut t = i;
    while t < n
        invariant
            i <= t <= n,
            n == data@.len(),
            chunk_end(data@, term, i as int) == chunk_end(data@, term, t as int),
        decreases n - t,
    {
        if data[t] == term {
            return t + 1;
        }
        t += 1;
    }
    n
}

/// Find the end of the chunk of `data` that starts at offset `i`.
pub fn chunk_end_char(data: &[char], term: char, i: usize) -> (j: usize)
    requires
        i <= data@.len(),
    ensures
        j == chunk_end(data@, term, i as int),
        i <= j <= data@.len(),
{
    let n = data.len();
    let mut t = i;
    while t < n
        invariant
            i <= t <= n,
            n == data@.len(),
            chunk_end(data@, term, i as int) == chunk_end(data@, term, t as int),
        decreases n - t,
    {
        if data[t] == term {
            return t + 1;
        }
        t += 1;
    }
    n
}

/// Count the chunks of `data`.
pub fn count_chunks_u8(data: &[u8], term: u8) -> (r: usize)
    ensures
        r == chunk_count(data@, term),
{
    let n = data.len();
    let mut i: usize = 0;
    let mut k: usize = 0;
    while i < n
        invariant
            0 <= i <= n,
            n == data@.len(),
            k <= i,
            k + chunk_count_from(data@, term, i as int) == chunk_count(data@, term),
        decreases n - i,
    {
        let j = chunk_end_u8(data, term, i);
        proof {
            lemma_chunk_end_bounds(data@, term, i as int);
        }
        i = j;
        k += 1;
    }
    k
}

} // verus!
