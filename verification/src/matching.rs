//! Attribution of a saved crash to the seed it was derived from.

use vstd::prelude::*;
use crate::corpus::Corpus;
use crate::diff::{byte_diff, diff, lemma_diff_empty_iff_equal, DiffEntry};
use crate::mutation::{lemma_mutation_is_bounded, mutation_of};

verus! {

/// A candidate seed is taken for the crash's source only if it differs from
/// the crash in fewer positions than this.
pub const DIFF_LIMIT: usize = 100;

/// Whether `seed` is accepted as the source of `crash`: equal length, at least
/// one differing byte, and fewer than `DIFF_LIMIT` of them.
pub open spec fn qualifies(seed: Seq<u8>, crash: Seq<u8>) -> bool {
    &&& seed.len() == crash.len()
    &&& 0 < diff(seed, crash).len() < DIFF_LIMIT
}

/// Whether any seed of the corpus qualifies as the source of `crash`.
pub open spec fn has_match(crash: Seq<u8>, seeds: Seq<Seq<u8>>) -> bool {
    exists|k: int| 0 <= k < seeds.len() && qualifies(#[trigger] seeds[k], crash)
}

/// Whether `k` is the position of the earliest qualifying seed.
pub open spec fn is_first_match(crash: Seq<u8>, seeds: Seq<Seq<u8>>, k: int) -> bool {
    &&& 0 <= k < seeds.len()
    &&& qualifies(seeds[k], crash)
    &&& forall|j: int| 0 <= j < k ==> !qualifies(#[trigger] seeds[j], crash)
}

/// Finds the seed that a crash was derived from.
///
/// The corpus is scanned in order and the earliest qualifying seed wins. The
/// answer carries that seed's position and the full difference list of the
/// crash against it.
pub fn find(crash: &Vec<u8>, corpus: &Corpus) -> (found: Option<(usize, Vec<DiffEntry>)>)
    ensures
        found is Some <==> has_match(crash@, corpus@),
        found matches Some((k, changes)) ==> {
            &&& is_first_match(crash@, corpus@, k as int)
            &&& changes@ == diff(corpus@[k as int], crash@)
        },
        (forall|k: int| 0 <= k < corpus@.len() ==> (#[trigger] corpus@[k]).len() != crash@.len())
            ==> found is None,
{
    let mut k: usize = 0;
    while k < corpus.len()
        invariant
            k <= corpus@.len(),
            forall|j: int| 0 <= j < k ==> !qualifies(#[trigger] corpus@[j], crash@),
        decreases corpus@.len() - k,
    {
        let seed = corpus.seed(k);
        if seed.len() == crash.len() {
            let changes = byte_diff(seed, crash);
            if changes.len() > 0 && changes.len() < DIFF_LIMIT {
                return Some((k, changes));
            }
        }
        k += 1;
    }
    None
}

/// A crash whose length no seed shares is attributed to nothing.
pub proof fn lemma_no_match_without_equal_length(crash: Seq<u8>, seeds: Seq<Seq<u8>>)
    requires
        forall|k: int| 0 <= k < seeds.len() ==> (#[trigger] seeds[k]).len() != crash.len(),
    ensures
        !has_match(crash, seeds),
{
}

/// When exactly one seed has the crash's length, the crash is attributed to it
/// if it differs from the crash in at least one and fewer than `DIFF_LIMIT`
/// positions, and to nothing otherwise.
pub proof fn lemma_single_candidate(crash: Seq<u8>, seeds: Seq<Seq<u8>>, k: int)
    requires
        0 <= k < seeds.len(),
        seeds[k].len() == crash.len(),
        forall|j: int|
            0 <= j < seeds.len() && j != k ==> (#[trigger] seeds[j]).len() != crash.len(),
    ensures
        has_match(crash, seeds) <==> 1 <= diff(seeds[k], crash).len() <= 99,
        has_match(crash, seeds) ==> is_first_match(crash, seeds, k),
        diff(seeds[k], crash).len() == 0 ==> !has_match(crash, seeds),
        diff(seeds[k], crash).len() >= 100 ==> !has_match(crash, seeds),
{
    if 1 <= diff(seeds[k], crash).len() <= 99 {
        assert(qualifies(seeds[k], crash));
    }
}

/// A mutated input that differs from its seed at all qualifies for that
/// seed: one mutation never reaches the limit.
pub proof fn lemma_mutation_qualifies(seed: Seq<u8>, out: Seq<u8>)
    requires
        mutation_of(seed, out),
        out != seed,
    ensures
        qualifies(seed, out),
{
    lemma_mutation_is_bounded(seed, out);
    lemma_diff_empty_iff_equal(seed, out);
}

} // verus!
