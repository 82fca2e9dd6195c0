//! Content equality of matched regular files: a modification-timestamp
//! fast path, and a chunked byte comparison that reads both inputs in
//! lockstep, a bounded chunk at a time, and agrees exactly with full
//! byte-for-byte equality.

use vstd::prelude::*;
use crate::entry::{Report, SpecReport};
use crate::walk::differs_report;

verus! {

/// Chunk size of the streamed comparison, in bytes.
pub const CHUNK_LEN: usize = 1024;

/// Length of the next chunk taken from a sequence of length `len`: a full
/// chunk of `k` bytes, or whatever remains.
pub open spec fn chunk_len(len: int, k: int) -> int {
    if len < k {
        len
    } else {
        k
    }
}

/// Chunked lockstep comparison of two byte sequences: take one chunk from
/// each; unequal chunks decide inequality; two empty chunks decide
/// equality; equal nonempty chunks continue with the rest.
pub open spec fn chunked_eq(a: Seq<u8>, b: Seq<u8>, k: int) -> bool
    decreases a.len(),
{
    if k < 1 {
        a == b
    } else if a.len() == 0 && b.len() == 0 {
        true
    } else if a.take(chunk_len(a.len() as int, k)) != b.take(chunk_len(b.len() as int, k)) {
        false
    } else {
        chunked_eq(a.skip(chunk_len(a.len() as int, k)), b.skip(chunk_len(b.len() as int, k)), k)
    }
}

/// Law: for every chunk size, the chunked lockstep comparison agrees with
/// full byte-for-byte equality — on inputs smaller than, equal to, or any
/// number of chunks long, the empty ones included.
pub proof fn lemma_chunked_eq_agrees(a: Seq<u8>, b: Seq<u8>, k: int)
    requires
        k >= 1,
    ensures
        chunked_eq(a, b, k) == (a == b),
    decreases a.len(),
{
    let ca = chunk_len(a.len() as int, k);
    let cb = chunk_len(b.len() as int, k);
    if a.len() == 0 && b.len() == 0 {
        assert(a =~= b);
    } else if a.take(ca) != b.take(cb) {
        if a == b {
            assert(a.take(ca) == b.take(cb));
        }
    } else {
        lemma_chunked_eq_agrees(a.skip(ca), b.skip(cb), k);
        assert(a.take(ca).len() == ca);
        assert(b.take(cb).len() == cb);
        assert(ca == cb);
        if a.skip(ca) == b.skip(cb) {
            assert(a =~= a.take(ca) + a.skip(ca));
            assert(b =~= b.take(cb) + b.skip(cb));
            assert(a == b);
        }
        if a == b {
            assert(a.skip(ca) == b.skip(cb));
        }
    }
}

/// Decides equality of `a@.subrange(start, start + n)` and the same range
/// of `b`, byte for byte.
fn range_eq(a: &Vec<u8>, b: &Vec<u8>, start: usize, n: usize) -> (r: bool)
    requires
        start + n <= a@.len(),
        start + n <= b@.len(),
    ensures
        r == (a@.subrange(start as int, start + n) == b@.subrange(start as int, start + n)),
{
    let ghost sa = a@.subrange(start as int, start + n);
    let ghost sb = b@.subrange(start as int, start + n);
    let alen: usize = a.len();
    let mut t: usize = 0;
    while t < n
        invariant
            t <= n,
            start + n <= alen,
            alen == a@.len(),
            start + n <= b@.len(),
            sa == a@.subrange(start as int, start + n),
            sb == b@.subrange(start as int, start + n),
            forall|j: int| 0 <= j < t ==> (#[trigger] a@[start + j]) == b@[start + j],
        decreases n - t,
    {
        if a[start + t] != b[start + t] {
            proof {
                assert(sa[t as int] == a@[start + t]);
                assert(sb[t as int] == b@[start + t]);
            }
            return false;
        }
        t = t + 1;
    }
    proof {
        assert forall|j: int| 0 <= j < n implies sa[j] == sb[j] by {
            assert(a@[start + j] == b@[start + j]);
        }
        assert(sa =~= sb);
    }
    true
}

/// Decides whether two byte strings are identical, reading both in
/// lockstep one bounded chunk at a time, exactly as the chunked model
/// does: never more than a chunk of each is looked at in one step.
pub fn has_same_contents(a: &Vec<u8>, b: &Vec<u8>) -> (r: bool)
    ensures
        r == (a@ == b@),
        r == chunked_eq(a@, b@, CHUNK_LEN as int),
{
    proof {
        lemma_chunked_eq_agrees(a@, b@, CHUNK_LEN as int);
    }
    let mut i: usize = 0;
    loop
        invariant
            i <= a@.len(),
            i <= b@.len(),
            a@.subrange(0, i as int) == b@.subrange(0, i as int),
            chunked_eq(a@, b@, CHUNK_LEN as int) == (a@ == b@),
        decreases a@.len() - i,
    {
        let a_rem = a.len() - i;
        let b_rem = b.len() - i;
        let a_n = if a_rem < CHUNK_LEN {
            a_rem
        } else {
            CHUNK_LEN
        };
        let b_n = if b_rem < CHUNK_LEN {
            b_rem
        } else {
            CHUNK_LEN
        };
        if a_n != b_n {
            proof {
                assert(a@.len() != b@.len());
            }
            return false;
        }
        if a_n == 0 {
            proof {
                assert forall|j: int| 0 <= j < a@.len() implies a@[j] == b@[j] by {
                    assert(a@.subrange(0, i as int)[j] == b@.subrange(0, i as int)[j]);
                }
                assert(a@ =~= b@);
            }
            return true;
        }
        if !range_eq(a, b, i, a_n) {
            proof {
                if a@ == b@ {
                    assert(a@.subrange(i as int, i + a_n) == b@.subrange(i as int, i + a_n));
                }
            }
            return false;
        }
        proof {
            assert(a@.subrange(0, i + a_n) =~= a@.subrange(0, i as int) + a@.subrange(
                i as int,
                i + a_n,
            ));
            assert(b@.subrange(0, i + a_n) =~= b@.subrange(0, i as int) + b@.subrange(
                i as int,
                i + a_n,
            ));
        }
        i = i + a_n;
    }
}

/// The verdict on one lockstep pair of chunks.
pub enum ChunkVerdict {
    /// The chunks differ in length or bytes: the files differ.
    Differ,
    /// Two empty chunks: synchronized end, the files are equal.
    EqualEnd,
    /// Equal nonempty chunks: keep reading.
    EqualMore,
}

/// Decides one step of the streamed comparison from the chunks just read
/// on each side: inequality the moment chunk lengths or bytes differ,
/// equality only at synchronized end of both streams.
pub fn chunk_step(a: &[u8], b: &[u8]) -> (v: ChunkVerdict)
    ensures
        (v is Differ) <==> a@ != b@,
        (v is EqualEnd) <==> (a@ == b@ && a@.len() == 0),
        (v is EqualMore) <==> (a@ == b@ && a@.len() > 0),
{
    if a.len() != b.len() {
        return ChunkVerdict::Differ;
    }
    let mut t: usize = 0;
    while t < a.len()
        invariant
            t <= a@.len(),
            a@.len() == b@.len(),
            forall|j: int| 0 <= j < t ==> a@[j] == b@[j],
        decreases a@.len() - t,
    {
        if a[t] != b[t] {
            return ChunkVerdict::Differ;
        }
        t = t + 1;
    }
    proof {
        assert(a@ =~= b@);
    }
    if a.len() == 0 {
        ChunkVerdict::EqualEnd
    } else {
        ChunkVerdict::EqualMore
    }
}

/// The modification-timestamp fast path holds exactly when both
/// timestamps are available and equal.
pub open spec fn times_match(a: Option<u128>, b: Option<u128>) -> bool {
    match (a, b) {
        (Some(x), Some(y)) => x == y,
        _ => false,
    }
}

/// Decides the timestamp fast path: an unavailable timestamp on either
/// side never matches, so the byte comparison is consulted instead.
pub fn modified_times_match(a: Option<u128>, b: Option<u128>) -> (r: bool)
    ensures
        r == times_match(a, b),
{
    match (a, b) {
        (Some(x), Some(y)) => x == y,
        _ => false,
    }
}

/// Decides what to report for a matched pair of regular files, given
/// their timestamps and contents: a report comes exactly when the
/// timestamps do not match and the bytes differ, and it carries the
/// second (peek) path first.  Files with matching timestamps are trusted
/// to be equal without looking at their bytes, and equal bytes are never
/// reported.
pub fn compare_matched_files(
    a_path: &Vec<u8>,
    b_path: &Vec<u8>,
    a_time: Option<u128>,
    b_time: Option<u128>,
    a_bytes: &Vec<u8>,
    b_bytes: &Vec<u8>,
) -> (r: Option<Report>)
    ensures
        (r is Some) <==> (!times_match(a_time, b_time) && a_bytes@ != b_bytes@),
        r matches Some(rep) ==> rep.deep_view() == (SpecReport::ContentDiffers {
            path_b: b_path@,
            path_a: a_path@,
        }),
{
    if modified_times_match(a_time, b_time) {
        None
    } else if has_same_contents(a_bytes, b_bytes) {
        None
    } else {
        Some(differs_report(a_path, b_path))
    }
}

} // verus!
