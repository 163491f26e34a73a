//! Position-wise differences between a seed and an input derived from it.

use vstd::prelude::*;

verus! {

/// One byte on which a derived input departs from its seed.
#[derive(Clone, Copy, Debug, PartialEq, Eq, Structural)]
pub struct DiffEntry {
    /// Position of the byte in both buffers.
    pub offset: usize,
    /// The seed's byte at that position.
    pub original: u8,
    /// The derived input's byte at that position.
    pub mutated: u8,
}

/// Number of positions that both buffers have.
pub open spec fn common_len(original: Seq<u8>, mutated: Seq<u8>) -> int {
    if original.len() <= mutated.len() {
        original.len() as int
    } else {
        mutated.len() as int
    }
}

/// The entry that describes position `i`, whether or not the buffers differ there.
pub open spec fn entry_at(original: Seq<u8>, mutated: Seq<u8>, i: int) -> DiffEntry {
    DiffEntry { offset: i as usize, original: original[i], mutated: mutated[i] }
}

/// The differences among the first `n` positions, in ascending order of offset.
pub open spec fn diff_upto(original: Seq<u8>, mutated: Seq<u8>, n: int) -> Seq<DiffEntry>
    decreases n,
{
    if n <= 0 {
        Seq::empty()
    } else if original[n - 1] != mutated[n - 1] {
        diff_upto(original, mutated, n - 1).push(entry_at(original, mutated, n - 1))
    } else {
        diff_upto(original, mutated, n - 1)
    }
}

/// The full difference list of two buffers over the positions they share.
pub open spec fn diff(original: Seq<u8>, mutated: Seq<u8>) -> Seq<DiffEntry> {
    diff_upto(original, mutated, common_len(original, mutated))
}

/// The positions below `n` at which the two buffers hold different bytes.
pub open spec fn differing_upto(original: Seq<u8>, mutated: Seq<u8>, n: int) -> Set<int> {
    Set::new(|i: int| 0 <= i < n && original[i] != mutated[i])
}

/// The positions at which the two buffers hold different bytes.
pub open spec fn differing_offsets(original: Seq<u8>, mutated: Seq<u8>) -> Set<int> {
    differing_upto(original, mutated, common_len(original, mutated))
}

/// Computes the difference list of two buffers.
pub fn byte_diff(original: &Vec<u8>, mutated: &Vec<u8>) -> (entries: Vec<DiffEntry>)
    ensures
        entries@ == diff(original@, mutated@),
{
    let n: usize = if original.len() <= mutated.len() {
        original.len()
    } else {
        mutated.len()
    };
    let mut entries: Vec<DiffEntry> = Vec::new();
    let mut i: usize = 0;
    while i < n
        invariant
            i <= n,
            n == common_len(original@, mutated@),
            entries@ == diff_upto(original@, mutated@, i as int),
        decreases n - i,
    {
        if original[i] != mutated[i] {
            entries.push(DiffEntry { offset: i, original: original[i], mutated: mutated[i] });
        }
        i += 1;
    }
    entries
}

proof fn lemma_diff_upto_exact(original: Seq<u8>, mutated: Seq<u8>, n: int)
    requires
        0 <= n <= common_len(original, mutated),
        n <= usize::MAX,
    ensures
        forall|k: int|
            0 <= k < diff_upto(original, mutated, n).len() ==> {
                let e = #[trigger] diff_upto(original, mutated, n)[k];
                &&& e.offset < n
                &&& e.original == original[e.offset as int]
                &&& e.mutated == mutated[e.offset as int]
                &&& e.original != e.mutated
            },
        forall|j: int, k: int|
            0 <= j < k < diff_upto(original, mutated, n).len() ==> (#[trigger] diff_upto(
                original,
                mutated,
                n,
            )[j]).offset < (#[trigger] diff_upto(original, mutated, n)[k]).offset,
        forall|i: int|
            0 <= i < n && original[i] != mutated[i] ==> diff_upto(original, mutated, n).contains(
                #[trigger] entry_at(original, mutated, i),
            ),
    decreases n,
{
    if n > 0 {
        lemma_diff_upto_exact(original, mutated, n - 1);
        let shorter = diff_upto(original, mutated, n - 1);
        let full = diff_upto(original, mutated, n);
        if original[n - 1] != mutated[n - 1] {
            let last = entry_at(original, mutated, n - 1);
            assert(full == shorter.push(last));
            assert(full[shorter.len() as int] == last);
            assert forall|i: int|
                0 <= i < n && original[i] != mutated[i] implies full.contains(
                #[trigger] entry_at(original, mutated, i),
            ) by {
                if i < n - 1 {
                    let k = choose|k: int|
                        0 <= k < shorter.len() && shorter[k] == entry_at(original, mutated, i);
                    assert(full[k] == entry_at(original, mutated, i));
                }
            }
        }
    }
}

proof fn lemma_diff_upto_counts(original: Seq<u8>, mutated: Seq<u8>, n: int)
    requires
        0 <= n,
    ensures
        differing_upto(original, mutated, n).finite(),
        diff_upto(original, mutated, n).len() == differing_upto(original, mutated, n).len(),
        diff_upto(original, mutated, n).len() <= n,
    decreases n,
{
    if n == 0 {
        assert(differing_upto(original, mutated, n) =~= Set::<int>::empty());
    } else {
        lemma_diff_upto_counts(original, mutated, n - 1);
        let before = differing_upto(original, mutated, n - 1);
        if original[n - 1] != mutated[n - 1] {
            assert(differing_upto(original, mutated, n) =~= before.insert(n - 1));
        } else {
            assert(differing_upto(original, mutated, n) =~= before);
        }
    }
}

/// Every entry of a difference list names a position where the buffers really
/// differ and records both bytes; offsets strictly ascend; and no differing
/// position is left out.
pub proof fn lemma_diff_is_exact(original: Seq<u8>, mutated: Seq<u8>)
    requires
        common_len(original, mutated) <= usize::MAX,
    ensures
        forall|k: int|
            0 <= k < diff(original, mutated).len() ==> {
                let e = #[trigger] diff(original, mutated)[k];
                &&& e.offset < common_len(original, mutated)
                &&& e.original == original[e.offset as int]
                &&& e.mutated == mutated[e.offset as int]
                &&& e.original != e.mutated
            },
        forall|j: int, k: int|
            0 <= j < k < diff(original, mutated).len() ==> (#[trigger] diff(
                original,
                mutated,
            )[j]).offset < (#[trigger] diff(original, mutated)[k]).offset,
        forall|i: int|
            0 <= i < common_len(original, mutated) && original[i] != mutated[i] ==> diff(
                original,
                mutated,
            ).contains(#[trigger] entry_at(original, mutated, i)),
{
    lemma_diff_upto_exact(original, mutated, common_len(original, mutated));
}

/// A difference list has exactly one entry for each differing position, so
/// its length is the number of positions at which the buffers differ.
pub proof fn lemma_diff_counts(original: Seq<u8>, mutated: Seq<u8>)
    ensures
        differing_offsets(original, mutated).finite(),
        diff(original, mutated).len() == differing_offsets(original, mutated).len(),
        diff(original, mutated).len() <= common_len(original, mutated),
{
    lemma_diff_upto_counts(original, mutated, common_len(original, mutated));
}

/// Buffers of one length have an empty difference list exactly when they are equal.
pub proof fn lemma_diff_empty_iff_equal(original: Seq<u8>, mutated: Seq<u8>)
    requires
        original.len() == mutated.len(),
    ensures
        diff(original, mutated).len() == 0 <==> original == mutated,
{
    lemma_diff_counts(original, mutated);
    let differing = differing_offsets(original, mutated);
    if original == mutated {
        assert(differing =~= Set::<int>::empty());
    } else {
        if differing.len() == 0 {
            assert(differing =~= Set::<int>::empty());
            assert forall|i: int| 0 <= i < original.len() implies original[i] == mutated[i] by {
                assert(!differing.contains(i));
            }
            assert(original =~= mutated);
        }
    }
}

} // verus!
