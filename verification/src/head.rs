//! The head-style counterpart of the tail engine: the first `n` lines
//! or bytes of a text.

use vstd::prelude::*;

use crate::chunks::chunk_end_u8;
use crate::chunks::chunk_start;
use crate::chunks::lemma_chunk_end_bounds;
use crate::chunks::lemma_chunk_start_count;
use crate::tail::NEWLINE;

verus! {

/// The first `n` lines of `data`, terminators included: everything up
/// to the offset where line `n` would start.
pub fn head_lines(data: &[u8], n: usize) -> (r: Vec<u8>)
    ensures
        r@ == data@.subrange(0, chunk_start(data@, NEWLINE, n as nat)),
{
    let len = data.len();
    let mut i: usize = 0;
    let mut k: usize = 0;
    while k < n && i < len
        invariant
            0 <= i <= len,
            k <= n,
            len == data@.len(),
            i == chunk_start(data@, NEWLINE, k as nat),
        decreases n - k,
    {
        let j = chunk_end_u8(data, NEWLINE, i);
        proof {
            lemma_chunk_end_bounds(data@, NEWLINE, i as int);
        }
        i = j;
        k += 1;
    }
    proof {
        if k < n {
            lemma_chunk_start_count(data@, NEWLINE, k as nat);
            lemma_chunk_start_monotone_to(data@, k as nat, n as nat);
        }
    }
    let mut out: Vec<u8> = Vec::new();
    out.extend_from_slice(&data[0..i]);
    proof {
        assert(out@ =~= data@.subrange(0, chunk_start(data@, NEWLINE, n as nat)));
    }
    out
}

/// Once the scan has reached the end, every later line starts there
/// too.
proof fn lemma_chunk_start_monotone_to(data: Seq<u8>, k: nat, n: nat)
    requires
        k <= n,
        chunk_start(data, NEWLINE, k) == data.len(),
    ensures
        chunk_start(data, NEWLINE, n) == data.len(),
    decreases n - k,
{
    if k < n {
        lemma_chunk_start_count(data, NEWLINE, k);
        lemma_chunk_start_monotone_to(data, (k + 1) as nat, n);
    }
}

/// The first `n` bytes of `data`, or all of it when it is shorter.
pub fn head_bytes(data: &[u8], n: usize) -> (r: Vec<u8>)
    ensures
        r@ == data@.subrange(
            0,
            if n <= data@.len() {
                n as int
            } else {
                data@.len() as int
            },
        ),
{
    let len = data.len();
    let hi = if n <= len {
        n
    } else {
        len
    };
    let mut out: Vec<u8> = Vec::new();
    out.extend_from_slice(&data[0..hi]);
    proof {
        assert(out@ =~= data@.subrange(0, hi as int));
    }
    out
}

} // verus!
