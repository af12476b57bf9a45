//! Chunked remote scanner: walks a foreign address range in fixed-size
//! windows and feeds each window to the byte-pattern matcher.
//!
//! The range `[begin, end)` is covered in chunks of 4096 bytes starting at
//! `begin`; a chunk whose read fails counts as a non-match and scanning moves
//! on. A match at local offset `k` of the chunk at `cursor` yields the
//! address `cursor + k - 1` — the `- 1` adjustment is a documented property
//! of the one binary layout the fixed pointer-chain offsets were taken from,
//! and downstream arithmetic depends on it. Chunk boundaries are not
//! match-aware: a signature that straddles two chunks is not found.

use crate::memory::{bytes_at, read_ok, ProcessImage};
use crate::pattern::{matches_at, SigToken, Signature};
use vstd::prelude::*;

verus! {

/// Chunk `i` of the range `[base, end)`: the chunk whose cursor is
/// `base + 4096 * i`. It is walked exactly when the cursor is short of `end`.
pub open spec fn chunk_in_range(base: u64, end: u64, i: int) -> bool {
    0 <= i && base + 4096 * i < end
}

/// Whether the whole 4096-byte window of chunk `i` is readable.
pub open spec fn chunk_readable(m: Map<u64, u8>, base: u64, i: int) -> bool {
    read_ok(m, (base + 4096 * i) as u64, 4096)
}

/// The bytes of the 4096-byte window of chunk `i`.
pub open spec fn chunk_bytes(m: Map<u64, u8>, base: u64, i: int) -> Seq<u8> {
    bytes_at(m, (base + 4096 * i) as u64, 4096)
}

/// The earliest offset `>= k` at which `sig` matches `buf`.
pub open spec fn scan_first(sig: Seq<SigToken>, buf: Seq<u8>, k: int) -> Option<int>
    decreases buf.len() - k,
{
    if !(0 <= k) || k + sig.len() > buf.len() {
        None
    } else if matches_at(sig, buf, k) {
        Some(k)
    } else {
        scan_first(sig, buf, k + 1)
    }
}

/// What one chunk contributes: the earliest in-chunk match offset, or `None`
/// when the chunk is unreadable or holds no match.
pub open spec fn chunk_scan(m: Map<u64, u8>, sig: Seq<SigToken>, base: u64, i: int) -> Option<
    int,
> {
    if chunk_readable(m, base, i) {
        scan_first(sig, chunk_bytes(m, base, i), 0)
    } else {
        None
    }
}

/// `scan_first` returns exactly the earliest match at or after `k`.
proof fn lemma_scan_first_characterizes(sig: Seq<SigToken>, buf: Seq<u8>, k: int)
    requires
        0 <= k,
    ensures
        match scan_first(sig, buf, k) {
            Some(r) => k <= r && matches_at(sig, buf, r) && (forall|j: int|
                k <= j < r ==> !matches_at(sig, buf, j)),
            None => forall|j: int| k <= j ==> !matches_at(sig, buf, j),
        },
    decreases buf.len() - k,
{
    if k + sig.len() > buf.len() {
    } else if matches_at(sig, buf, k) {
    } else {
        lemma_scan_first_characterizes(sig, buf, k + 1);
    }
}

/// Walks `[begin, end)` in 4096-byte chunks and returns the adjusted address
/// of the first chunk-local match, reading each chunk out of `mem`. The
/// range must begin past address 0 — the `- 1` adjustment must not wrap —
/// and leave room for one whole trailing chunk below the end of the space.
///
/// The result is pinned chunk by chunk: it is the address derived from the
/// first chunk whose window both reads fully and contains a match, every
/// earlier chunk contributing nothing, and `None` exactly when no walked
/// chunk contributes.
pub fn sig_scan(mem: &ProcessImage, sig: &Signature, begin: u64, end: u64) -> (r: Option<u64>)
    requires
        mem.wf(),
        1 <= begin,
        end <= u64::MAX - 4096,
    ensures
        match r {
            Some(a) => exists|i: int|
                {
                    &&& #[trigger] chunk_in_range(begin, end, i)
                    &&& chunk_scan(mem@, sig@, begin, i) matches Some(k) && a == begin + 4096 * i
                        + k - 1
                    &&& forall|j: int|
                        0 <= j < i ==> chunk_scan(mem@, sig@, begin, j) is None
                },
            None => forall|i: int|
                chunk_in_range(begin, end, i) ==> chunk_scan(mem@, sig@, begin, i) is None,
        },
{
    let mut cursor: u64 = begin;
    let ghost mut gi: int = 0;
    while cursor < end
        invariant
            mem.wf(),
            1 <= begin,
            end <= u64::MAX - 4096,
            0 <= gi,
            cursor == begin + 4096 * gi,
            forall|j: int| 0 <= j < gi ==> chunk_scan(mem@, sig@, begin, j) is None,
        decreases end + 4096 - cursor,
    {
        match mem.read_bytes(cursor, 4096) {
            Ok(buf) => {
                match sig.scan(&buf) {
                    Some(k) => {
                        proof {
                            lemma_scan_first_characterizes(sig@, buf@, 0);
                            assert(chunk_readable(mem@, begin, gi));
                            assert(chunk_bytes(mem@, begin, gi) == buf@);
                            assert(chunk_scan(mem@, sig@, begin, gi) == Some(k as int));
                            assert(chunk_in_range(begin, end, gi));
                        }
                        return Some(cursor + k as u64 - 1);
                    },
                    None => {
                        proof {
                            lemma_scan_first_characterizes(sig@, buf@, 0);
                            assert(chunk_bytes(mem@, begin, gi) == buf@);
                            assert(chunk_scan(mem@, sig@, begin, gi) is None);
                        }
                    },
                }
            },
            Err(_) => {
                proof {
                    assert(!chunk_readable(mem@, begin, gi));
                    assert(chunk_scan(mem@, sig@, begin, gi) is None);
                }
            },
        }
        cursor = cursor + 4096;
        proof {
            gi = gi + 1;
        }
    }
    None
}

} // verus!
