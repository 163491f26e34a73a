//! The seed corpus: an ordered, read-only collection of byte buffers.

use vstd::prelude::*;

verus! {

/// Why a corpus cannot be fuzzed.
#[derive(Clone, Copy, Debug, PartialEq, Eq, Structural)]
pub enum CorpusFault {
    /// The corpus holds no seed at all.
    Empty,
    /// The seed at this position has no bytes, so no offset can be drawn in it.
    EmptySeed(usize),
}

/// The seeds of one run, each identified by its position.
pub struct Corpus {
    seeds: Vec<Vec<u8>>,
}

impl View for Corpus {
    type V = Seq<Seq<u8>>;

    closed spec fn view(&self) -> Seq<Seq<u8>> {
        Seq::new(self.seeds@.len(), |i: int| self.seeds@[i]@)
    }
}

/// A corpus that mutation can draw from: at least one seed, and no seed without bytes.
pub open spec fn fuzzable(seeds: Seq<Seq<u8>>) -> bool {
    &&& seeds.len() > 0
    &&& forall|i: int| 0 <= i < seeds.len() ==> (#[trigger] seeds[i]).len() > 0
}

impl Corpus {
    /// Takes ownership of the loaded seeds, keeping their order.
    pub fn new(seeds: Vec<Vec<u8>>) -> (corpus: Corpus)
        ensures
            corpus@.len() == seeds@.len(),
            forall|i: int| 0 <= i < seeds@.len() ==> #[trigger] corpus@[i] == seeds@[i]@,
    {
        Corpus { seeds }
    }

    /// Number of seeds.
    pub fn len(&self) -> (n: usize)
        ensures
            n == self@.len(),
    {
        self.seeds.len()
    }

    /// The seed at position `index`.
    pub fn seed(&self, index: usize) -> (seed: &Vec<u8>)
        requires
            index < self@.len(),
        ensures
            seed@ == self@[index as int],
    {
        &self.seeds[index]
    }

    /// Decides whether mutation may draw from this corpus, and names the first
    /// obstacle when it may not.
    pub fn check(&self) -> (verdict: Result<(), CorpusFault>)
        ensures
            verdict is Ok <==> fuzzable(self@),
            verdict == Err::<(), CorpusFault>(CorpusFault::Empty) <==> self@.len() == 0,
            forall|k: usize|
                verdict == Err::<(), CorpusFault>(CorpusFault::EmptySeed(k)) <==> {
                    &&& k < self@.len()
                    &&& self@[k as int].len() == 0
                    &&& forall|j: int| 0 <= j < k ==> (#[trigger] self@[j]).len() > 0
                },
    {
        if self.seeds.len() == 0 {
            return Err(CorpusFault::Empty);
        }
        let mut i: usize = 0;
        while i < self.seeds.len()
            invariant
                i <= self.seeds.len(),
                self@.len() == self.seeds@.len(),
                self@.len() > 0,
                forall|j: int| 0 <= j < i ==> (#[trigger] self@[j]).len() > 0,
            decreases self.seeds.len() - i,
        {
            if self.seeds[i].len() == 0 {
                assert(self@[i as int].len() == 0);
                return Err(CorpusFault::EmptySeed(i));
            }
            assert(self@[i as int].len() > 0);
            i += 1;
        }
        Ok(())
    }
}

} // verus!
