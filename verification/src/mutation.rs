//! The mutation engine: a seed is copied and a fixed number of its bytes are
//! overwritten at random positions with random values.

use vstd::prelude::*;
use crate::corpus::{fuzzable, Corpus};
use crate::diff::{diff, differing_offsets, lemma_diff_counts};
use crate::rng::{draw_below, draw_byte};

verus! {

/// Number of single-byte substitutions applied to a seed in one mutation.
pub const ROUNDS: usize = 8;

/// One single-byte substitution: the byte at `offset` becomes `value`.
#[derive(Clone, Copy, Debug, PartialEq, Eq, Structural)]
pub struct Substitution {
    pub offset: usize,
    pub value: u8,
}

/// Whether every substitution of `picks` lands inside a buffer of `len` bytes.
pub open spec fn in_bounds(picks: Seq<Substitution>, len: nat) -> bool {
    forall|i: int| 0 <= i < picks.len() ==> (#[trigger] picks[i]).offset < len
}

/// The buffer after the substitutions of `picks` were applied in order.
/// A later substitution at the same offset overwrites an earlier one.
pub open spec fn substituted(seed: Seq<u8>, picks: Seq<Substitution>) -> Seq<u8>
    decreases picks.len(),
{
    if picks.len() == 0 {
        seed
    } else {
        substituted(seed, picks.drop_last()).update(
            picks.last().offset as int,
            picks.last().value,
        )
    }
}

/// Whether `out` can be reached from `seed` by one mutation: `ROUNDS`
/// substitutions inside the seed, applied in order.
pub open spec fn mutation_of(seed: Seq<u8>, out: Seq<u8>) -> bool {
    exists|picks: Seq<Substitution>|
        picks.len() == ROUNDS && in_bounds(picks, seed.len()) && out == #[trigger] substituted(
            seed,
            picks,
        )
}

/// The offsets that `picks` touch.
pub open spec fn touched(picks: Seq<Substitution>) -> Set<int> {
    Set::new(|o: int| exists|i: int| 0 <= i < picks.len() && (#[trigger] picks[i]).offset == o)
}

/// Applies the substitutions of `picks` in order to a fresh copy of `seed`.
pub fn substitute(seed: &Vec<u8>, picks: &Vec<Substitution>) -> (out: Vec<u8>)
    requires
        in_bounds(picks@, seed@.len()),
    ensures
        out@ == substituted(seed@, picks@),
{
    let mut out: Vec<u8> = seed.clone();
    assert(out@ =~= seed@);
    let mut i: usize = 0;
    while i < picks.len()
        invariant
            i <= picks@.len(),
            in_bounds(picks@, seed@.len()),
            out@.len() == seed@.len(),
            out@ == substituted(seed@, picks@.take(i as int)),
        decreases picks@.len() - i,
    {
        let pick = picks[i];
        assert(picks@.take(i + 1).drop_last() =~= picks@.take(i as int));
        out.set(pick.offset, pick.value);
        i += 1;
    }
    assert(picks@.take(i as int) =~= picks@);
    out
}

/// Draws the substitutions of one mutation for a buffer of `len` bytes:
/// `ROUNDS` times an offset below `len`, then a byte.
fn draw_round(rng: &mut rand::rngs::ThreadRng, len: usize) -> (picks: Vec<Substitution>)
    requires
        len > 0,
    ensures
        picks@.len() == ROUNDS,
        in_bounds(picks@, len as nat),
{
    let mut picks: Vec<Substitution> = Vec::new();
    let mut round: usize = 0;
    while round < ROUNDS
        invariant
            round <= ROUNDS,
            len > 0,
            picks@.len() == round,
            in_bounds(picks@, len as nat),
        decreases ROUNDS - round,
    {
        let offset = draw_below(rng, len);
        let value = draw_byte(rng);
        picks.push(Substitution { offset, value });
        round += 1;
    }
    picks
}

/// Produces one mutated input: a seed chosen at random, copied, with `ROUNDS`
/// random bytes written at random offsets.
///
/// Which seed and which substitutions were drawn is not known to the caller;
/// whatever was drawn, the result is one mutation away from some seed of the
/// corpus.
pub fn mutate(corpus: &Corpus, rng: &mut rand::rngs::ThreadRng) -> (out: Vec<u8>)
    requires
        fuzzable(corpus@),
    ensures
        exists|k: int|
            {
                &&& 0 <= k < corpus@.len()
                &&& mutation_of(#[trigger] corpus@[k], out@)
                &&& out@.len() == corpus@[k].len()
                &&& differing_offsets(corpus@[k], out@).len() <= ROUNDS
            },
        corpus@.len() == 1 ==> out@.len() == corpus@[0].len(),
        corpus@.len() == 1 ==> differing_offsets(corpus@[0], out@).len() <= ROUNDS,
{
    let k = draw_below(rng, corpus.len());
    let seed = corpus.seed(k);
    let picks = draw_round(rng, seed.len());
    let out = substitute(seed, &picks);
    proof {
        lemma_mutation_is_bounded(seed@, out@);
        assert(mutation_of(corpus@[k as int], out@));
    }
    out
}

/// Substitution inside a buffer never changes its length.
pub proof fn lemma_substituted_len(seed: Seq<u8>, picks: Seq<Substitution>)
    requires
        in_bounds(picks, seed.len()),
    ensures
        substituted(seed, picks).len() == seed.len(),
    decreases picks.len(),
{
    if picks.len() > 0 {
        lemma_substituted_len(seed, picks.drop_last());
    }
}

/// A buffer and its substituted copy can differ only at touched offsets.
pub proof fn lemma_substituted_differs_where_touched(seed: Seq<u8>, picks: Seq<Substitution>)
    requires
        in_bounds(picks, seed.len()),
    ensures
        differing_offsets(seed, substituted(seed, picks)).subset_of(touched(picks)),
    decreases picks.len(),
{
    lemma_substituted_len(seed, picks);
    if picks.len() > 0 {
        let shorter = picks.drop_last();
        lemma_substituted_differs_where_touched(seed, shorter);
        lemma_substituted_len(seed, shorter);
        let before = substituted(seed, shorter);
        let after = substituted(seed, picks);
        assert forall|o: int| differing_offsets(seed, after).contains(o) implies touched(
            picks,
        ).contains(o) by {
            if o == picks.last().offset {
                assert(picks[picks.len() - 1].offset == o);
            } else {
                assert(after[o] == before[o]);
                assert(differing_offsets(seed, before).contains(o));
                assert(touched(shorter).contains(o));
                let i = choose|i: int| 0 <= i < shorter.len() && (#[trigger] shorter[i]).offset == o;
                assert(picks[i].offset == o);
            }
        }
    } else {
        assert(differing_offsets(seed, substituted(seed, picks)) =~= Set::<int>::empty());
    }
}

/// A list of substitutions touches no more offsets than it has entries.
pub proof fn lemma_touched_count(picks: Seq<Substitution>)
    ensures
        touched(picks).finite(),
        touched(picks).len() <= picks.len(),
    decreases picks.len(),
{
    if picks.len() == 0 {
        assert(touched(picks) =~= Set::<int>::empty());
    } else {
        let shorter = picks.drop_last();
        lemma_touched_count(shorter);
        assert(touched(picks) =~= touched(shorter).insert(picks.last().offset as int)) by {
            assert forall|o: int| touched(picks).contains(o) implies touched(shorter).insert(
                picks.last().offset as int,
            ).contains(o) by {
                let i = choose|i: int| 0 <= i < picks.len() && (#[trigger] picks[i]).offset == o;
                if i < picks.len() - 1 {
                    assert(shorter[i].offset == o);
                }
            }
            assert forall|o: int|
                touched(shorter).insert(picks.last().offset as int).contains(
                    o,
                ) implies touched(picks).contains(o) by {
                if o == picks.last().offset {
                    assert(picks[picks.len() - 1].offset == o);
                } else {
                    let i = choose|i: int|
                        0 <= i < shorter.len() && (#[trigger] shorter[i]).offset == o;
                    assert(picks[i].offset == o);
                }
            }
        }
    }
}

/// A mutated input has its seed's length, and the set of offsets at which it
/// differs from the seed has at most `ROUNDS` members; so has its difference
/// list.
pub proof fn lemma_mutation_is_bounded(seed: Seq<u8>, out: Seq<u8>)
    requires
        mutation_of(seed, out),
    ensures
        out.len() == seed.len(),
        differing_offsets(seed, out).finite(),
        differing_offsets(seed, out).len() <= ROUNDS,
        diff(seed, out).len() <= ROUNDS,
{
    let picks = choose|picks: Seq<Substitution>|
        picks.len() == ROUNDS && in_bounds(picks, seed.len()) && out == #[trigger] substituted(
            seed,
            picks,
        );
    lemma_substituted_len(seed, picks);
    lemma_substituted_differs_where_touched(seed, picks);
    lemma_touched_count(picks);
    vstd::set_lib::lemma_len_subset(differing_offsets(seed, out), touched(picks));
    lemma_diff_counts(seed, out);
}

} // verus!
