//! Isolation of the single-byte changes that reproduce a crash on their own.

use vstd::prelude::*;
use crate::diff::{diff, lemma_diff_is_exact, DiffEntry};

verus! {

/// A crash under triage: the matched seed's name and bytes, and the list of
/// changes that turned the seed into the crashing input.
pub struct Crash {
    pub name: String,
    pub bytes: Vec<u8>,
    pub modified: Vec<DiffEntry>,
}

/// A change that, applied alone to the seed, made the target exit with a
/// nonzero code.
#[derive(Clone, Copy, Debug, PartialEq, Eq, Structural)]
pub struct CausalChange {
    pub offset: usize,
    pub original: u8,
    pub mutated: u8,
    pub exit_code: i32,
}

/// Whether `entry` can be applied to `bytes`: its offset lies inside, and the
/// byte there is the one the entry recorded as original.
pub open spec fn entry_fits(bytes: Seq<u8>, entry: DiffEntry) -> bool {
    &&& entry.offset < bytes.len()
    &&& bytes[entry.offset as int] == entry.original
}

/// `bytes` with the one change of `entry` applied.
pub open spec fn with_change(bytes: Seq<u8>, entry: DiffEntry) -> Seq<u8> {
    bytes.update(entry.offset as int, entry.mutated)
}

/// The report for one change and the exit code of its run.
pub open spec fn attributed(entry: DiffEntry, exit_code: i32) -> CausalChange {
    CausalChange {
        offset: entry.offset,
        original: entry.original,
        mutated: entry.mutated,
        exit_code,
    }
}

/// Number of changes that have an exit code paired with them.
pub open spec fn paired_len(modified: Seq<DiffEntry>, exit_codes: Seq<i32>) -> int {
    if modified.len() <= exit_codes.len() {
        modified.len() as int
    } else {
        exit_codes.len() as int
    }
}

/// Among the first `n` changes, those whose run exited with a nonzero code,
/// in the order of the change list, each with its code.
pub open spec fn causal_upto(modified: Seq<DiffEntry>, exit_codes: Seq<i32>, n: int) -> Seq<
    CausalChange,
>
    decreases n,
{
    if n <= 0 {
        Seq::empty()
    } else if exit_codes[n - 1] != 0 {
        causal_upto(modified, exit_codes, n - 1).push(
            attributed(modified[n - 1], exit_codes[n - 1]),
        )
    } else {
        causal_upto(modified, exit_codes, n - 1)
    }
}

/// The changes that alone reproduce a nonzero exit, given the exit code of
/// each change's run. The code at position `i` belongs to the change at `i`.
pub open spec fn causal(modified: Seq<DiffEntry>, exit_codes: Seq<i32>) -> Seq<CausalChange> {
    causal_upto(modified, exit_codes, paired_len(modified, exit_codes))
}

impl Crash {
    /// Binds a matched seed's name and bytes to the changes found against it.
    pub fn new(name: String, bytes: Vec<u8>, modified: Vec<DiffEntry>) -> (crash: Crash)
        ensures
            crash.name == name,
            crash.bytes == bytes,
            crash.modified == modified,
    {
        Crash { name, bytes, modified }
    }

    /// Whether every recorded change can be applied to the seed's bytes.
    pub open spec fn consistent(&self) -> bool {
        forall|i: int|
            0 <= i < self.modified@.len() ==> entry_fits(self.bytes@, #[trigger] self.modified@[i])
    }

    /// Checks that every recorded change can be applied to the seed's bytes.
    pub fn is_consistent(&self) -> (ok: bool)
        ensures
            ok == self.consistent(),
    {
        let mut i: usize = 0;
        while i < self.modified.len()
            invariant
                i <= self.modified@.len(),
                forall|j: int|
                    0 <= j < i ==> entry_fits(self.bytes@, #[trigger] self.modified@[j]),
            decreases self.modified@.len() - i,
        {
            let entry = self.modified[i];
            if entry.offset >= self.bytes.len() || self.bytes[entry.offset] != entry.original {
                assert(!entry_fits(self.bytes@, self.modified@[i as int]));
                return false;
            }
            i += 1;
        }
        true
    }

    /// Builds the input for one isolation run: a fresh copy of the seed with
    /// only the change at `index` applied.
    pub fn single_change(&self, index: usize) -> (input: Vec<u8>)
        requires
            index < self.modified@.len(),
            entry_fits(self.bytes@, self.modified@[index as int]),
        ensures
            input@ == with_change(self.bytes@, self.modified@[index as int]),
    {
        let entry = self.modified[index];
        let mut input: Vec<u8> = self.bytes.clone();
        assert(input@ =~= self.bytes@);
        input.set(entry.offset, entry.mutated);
        input
    }
}

/// Selects the causal changes of a crash from the exit codes of its isolation
/// runs, `exit_codes[i]` being the code of the run with only change `i`
/// applied. Changes without a code, and codes without a change, are ignored.
pub fn isolate(crash: &Crash, exit_codes: &Vec<i32>) -> (report: Vec<CausalChange>)
    ensures
        report@ == causal(crash.modified@, exit_codes@),
        forall|k: int| 0 <= k < report@.len() ==> (#[trigger] report@[k]).exit_code != 0,
{
    let n: usize = if crash.modified.len() <= exit_codes.len() {
        crash.modified.len()
    } else {
        exit_codes.len()
    };
    let mut report: Vec<CausalChange> = Vec::new();
    let mut i: usize = 0;
    while i < n
        invariant
            i <= n,
            n == paired_len(crash.modified@, exit_codes@),
            report@ == causal_upto(crash.modified@, exit_codes@, i as int),
            forall|k: int| 0 <= k < report@.len() ==> (#[trigger] report@[k]).exit_code != 0,
        decreases n - i,
    {
        let exit_code = exit_codes[i];
        if exit_code != 0 {
            let entry = crash.modified[i];
            report.push(
                CausalChange {
                    offset: entry.offset,
                    original: entry.original,
                    mutated: entry.mutated,
                    exit_code,
                },
            );
        }
        i += 1;
    }
    report
}

proof fn lemma_causal_upto_sound(modified: Seq<DiffEntry>, exit_codes: Seq<i32>, n: int)
    requires
        0 <= n <= paired_len(modified, exit_codes),
    ensures
        causal_upto(modified, exit_codes, n).len() <= n,
        forall|k: int|
            0 <= k < causal_upto(modified, exit_codes, n).len() ==> {
                let c = #[trigger] causal_upto(modified, exit_codes, n)[k];
                &&& c.exit_code != 0
                &&& exists|i: int|
                    0 <= i < n && exit_codes[i] == c.exit_code && c == attributed(
                        #[trigger] modified[i],
                        c.exit_code,
                    )
            },
    decreases n,
{
    if n > 0 {
        lemma_causal_upto_sound(modified, exit_codes, n - 1);
        let shorter = causal_upto(modified, exit_codes, n - 1);
        let full = causal_upto(modified, exit_codes, n);
        assert forall|k: int| 0 <= k < full.len() implies {
            let c = #[trigger] full[k];
            &&& c.exit_code != 0
            &&& exists|i: int|
                0 <= i < n && exit_codes[i] == c.exit_code && c == attributed(
                    #[trigger] modified[i],
                    c.exit_code,
                )
        } by {
            let c = full[k];
            if k < shorter.len() {
                assert(c == shorter[k]);
                let i = choose|i: int|
                    0 <= i < n - 1 && exit_codes[i] == c.exit_code && c == attributed(
                        #[trigger] modified[i],
                        c.exit_code,
                    );
                assert(c == attributed(modified[i], c.exit_code));
            } else {
                assert(c == attributed(modified[n - 1], exit_codes[n - 1]));
            }
        }
    }
}

proof fn lemma_causal_upto_complete(modified: Seq<DiffEntry>, exit_codes: Seq<i32>, n: int)
    requires
        0 <= n <= paired_len(modified, exit_codes),
    ensures
        forall|i: int|
            0 <= i < n && exit_codes[i] != 0 ==> causal_upto(modified, exit_codes, n).contains(
                attributed(#[trigger] modified[i], exit_codes[i]),
            ),
    decreases n,
{
    if n > 0 {
        lemma_causal_upto_complete(modified, exit_codes, n - 1);
        let shorter = causal_upto(modified, exit_codes, n - 1);
        let full = causal_upto(modified, exit_codes, n);
        assert forall|i: int| 0 <= i < n && exit_codes[i] != 0 implies full.contains(
            attributed(#[trigger] modified[i], exit_codes[i]),
        ) by {
            let wanted = attributed(modified[i], exit_codes[i]);
            if i < n - 1 {
                let k = choose|k: int| 0 <= k < shorter.len() && shorter[k] == wanted;
                assert(full[k] == wanted);
            } else {
                assert(full[shorter.len() as int] == wanted);
            }
        }
    }
}

/// No reported change carries the exit code 0: each is a recorded change
/// together with the nonzero code of its own run.
pub proof fn lemma_causal_never_zero(modified: Seq<DiffEntry>, exit_codes: Seq<i32>)
    ensures
        causal(modified, exit_codes).len() <= paired_len(modified, exit_codes),
        forall|k: int|
            0 <= k < causal(modified, exit_codes).len() ==> {
                let c = #[trigger] causal(modified, exit_codes)[k];
                &&& c.exit_code != 0
                &&& exists|i: int|
                    0 <= i < paired_len(modified, exit_codes) && exit_codes[i] == c.exit_code && c
                        == attributed(#[trigger] modified[i], c.exit_code)
            },
{
    lemma_causal_upto_sound(modified, exit_codes, paired_len(modified, exit_codes));
}

/// Every change whose run exited with a nonzero code is reported.
pub proof fn lemma_causal_complete(modified: Seq<DiffEntry>, exit_codes: Seq<i32>)
    ensures
        forall|i: int|
            0 <= i < paired_len(modified, exit_codes) && exit_codes[i] != 0 ==> causal(
                modified,
                exit_codes,
            ).contains(attributed(#[trigger] modified[i], exit_codes[i])),
{
    lemma_causal_upto_complete(modified, exit_codes, paired_len(modified, exit_codes));
}

/// The difference list of a crash against a seed of its length can always be
/// applied to that seed, one change at a time, and each change puts the
/// crash's byte at its offset.
pub proof fn lemma_diff_fits_seed(seed: Seq<u8>, crash: Seq<u8>)
    requires
        seed.len() == crash.len(),
        seed.len() <= usize::MAX,
    ensures
        forall|k: int|
            0 <= k < diff(seed, crash).len() ==> {
                let e = #[trigger] diff(seed, crash)[k];
                &&& entry_fits(seed, e)
                &&& with_change(seed, e)[e.offset as int] == crash[e.offset as int]
            },
{
    lemma_diff_is_exact(seed, crash);
}

} // verus!
