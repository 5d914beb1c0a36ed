//! k-mer hashing of a read: every window of `k` bytes, hashed with the
//! unseeded Fx hash so that equal k-mers always hash alike.

use vstd::prelude::*;

verus! {

/// The 64-bit Fx hash of a byte slice.
pub uninterp spec fn fx_hash_of(bytes: Seq<u8>) -> u64;

/// Relies on `fxhash::hash64`: an `FxHasher64` starts from a fixed state and
/// is fed the slice's length and bytes, so the hash depends on the bytes
/// alone (within one build: the hasher reads 8-byte words in the target's
/// byte order).
#[verifier::external_body]
fn kmer_hash(kmer: &[u8]) -> (r: u64)
    ensures
        r == fx_hash_of(kmer@),
{
    fxhash::hash64(kmer)
}

/// Hashes of the k-mers of `seq`, one per start position, in order.
pub fn kmer_hashes(seq: &[u8], k: usize) -> (r: Vec<u64>)
    requires
        k <= seq@.len(),
        seq@.len() - k < usize::MAX,
    ensures
        r@.len() == seq@.len() - k + 1,
        forall|i: int| 0 <= i < r@.len() ==> #[trigger] r@[i] == fx_hash_of(seq@.subrange(i, i + k)),
{
    let mut out: Vec<u64> = Vec::new();
    let last: usize = seq.len() - k;
    let mut i: usize = 0;
    while i <= last
        invariant
            last == seq@.len() - k,
            last + k == seq.len(),
            last < usize::MAX,
            i <= last + 1,
            out@.len() == i,
            forall|j: int| 0 <= j < i ==> #[trigger] out@[j] == fx_hash_of(seq@.subrange(j, j + k)),
        decreases last + 1 - i,
    {
        let h = kmer_hash(&seq[i..i + k]);
        out.push(h);
        i = i + 1;
    }
    out
}

/// k-mer hashes of `seq`, or `None` where `seq` is shorter than `k` and
/// has no k-mer.
pub fn try_kmer_hashes(seq: &[u8], k: usize) -> (r: Option<Vec<u64>>)
    requires
        seq@.len() - k < usize::MAX,
    ensures
        r is None <==> seq@.len() < k,
        r is Some ==> r->Some_0@.len() == seq@.len() - k + 1 && forall|i: int|
            0 <= i < r->Some_0@.len() ==> #[trigger] r->Some_0@[i] == fx_hash_of(
                seq@.subrange(i, i + k),
            ),
{
    if seq.len() < k {
        None
    } else {
        Some(kmer_hashes(seq, k))
    }
}

} // verus!
