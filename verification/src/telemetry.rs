//! The aggregator's running statistics.
//!
//! Workers report over channels; once per sampling period the aggregator
//! drains what has arrived and hands it to `Telemetry::sample`, which folds it
//! into the totals and returns the figures of the status line.

use vstd::prelude::*;

verus! {

/// What the statistics stand for.
pub struct TelemetryState {
    /// Tests executed since the run began.
    pub total_tests: nat,
    /// Tests executed in each sampling period so far, oldest first.
    pub deltas: Seq<usize>,
    /// Exit code of every crash seen so far, in order of arrival.
    pub crash_log: Seq<i32>,
}

/// The aggregator's counters.
pub struct Telemetry {
    total_tests: usize,
    deltas: Vec<usize>,
    crash_log: Vec<i32>,
    unique: Vec<i32>,
}

/// The figures of one status line. The elapsed time and the average rate are
/// the caller's to compute: the rate is `window_total` over `samples`.
#[derive(Clone, Copy, Debug, PartialEq, Eq, Structural)]
pub struct StatusLine {
    /// Number of sampling periods so far, this one included.
    pub samples: usize,
    /// Sum of the tests executed over all sampling periods.
    pub window_total: usize,
    /// Number of crashes seen.
    pub crashes: usize,
    /// Number of distinct exit codes among the crashes.
    pub unique_crashes: usize,
    /// Tests executed since the run began.
    pub total_tests: usize,
}

/// Milliseconds between two samples.
pub const SAMPLE_PERIOD_MILLIS: u128 = 1000;

/// Whether enough time has passed since the previous sample to take the next.
pub fn sample_due(elapsed_millis: u128) -> (due: bool)
    ensures
        due <==> elapsed_millis >= SAMPLE_PERIOD_MILLIS,
{
    elapsed_millis >= SAMPLE_PERIOD_MILLIS
}

/// Sum of a sequence of counts.
pub open spec fn sum(counts: Seq<usize>) -> nat
    decreases counts.len(),
{
    if counts.len() == 0 {
        0
    } else {
        sum(counts.drop_last()) + counts.last() as nat
    }
}

/// Whether each element is smaller than all that follow it.
pub open spec fn strictly_ascending(codes: Seq<i32>) -> bool {
    forall|i: int, j: int| 0 <= i < j < codes.len() ==> codes[i] < codes[j]
}

/// Whether `unique` is the sorted, duplicate-free projection of `log`: the
/// same codes, each once, in ascending order.
pub open spec fn is_unique_projection(unique: Seq<i32>, log: Seq<i32>) -> bool {
    &&& strictly_ascending(unique)
    &&& forall|code: i32| unique.contains(code) <==> log.contains(code)
}

impl View for Telemetry {
    type V = TelemetryState;

    closed spec fn view(&self) -> TelemetryState {
        TelemetryState {
            total_tests: self.total_tests as nat,
            deltas: self.deltas@,
            crash_log: self.crash_log@,
        }
    }
}

/// The sum of a prefix never exceeds the sum of the whole.
proof fn lemma_sum_prefix(counts: Seq<usize>, n: int)
    requires
        0 <= n <= counts.len(),
    ensures
        sum(counts.take(n)) <= sum(counts),
    decreases counts.len(),
{
    if n == counts.len() {
        assert(counts.take(n) =~= counts);
    } else {
        lemma_sum_prefix(counts.drop_last(), n);
        assert(counts.drop_last().take(n) =~= counts.take(n));
    }
}

/// Adds up the counts, or reports that their sum with `base` does not fit.
fn checked_total(base: usize, counts: &Vec<usize>) -> (total: Option<usize>)
    ensures
        total matches Some(t) ==> t == base + sum(counts@),
        total is None <==> base + sum(counts@) > usize::MAX,
{
    let mut total: usize = base;
    let mut i: usize = 0;
    while i < counts.len()
        invariant
            i <= counts@.len(),
            total == base + sum(counts@.take(i as int)),
        decreases counts@.len() - i,
    {
        assert(counts@.take(i + 1).drop_last() =~= counts@.take(i as int));
        match total.checked_add(counts[i]) {
            Some(next) => {
                total = next;
            },
            None => {
                proof {
                    lemma_sum_prefix(counts@, i + 1);
                }
                return None;
            },
        }
        i += 1;
    }
    assert(counts@.take(i as int) =~= counts@);
    Some(total)
}

/// Adds up counts whose sum fits.
fn total_of(counts: &Vec<usize>) -> (total: usize)
    requires
        sum(counts@) <= usize::MAX,
    ensures
        total == sum(counts@),
{
    let mut total: usize = 0;
    let mut i: usize = 0;
    while i < counts.len()
        invariant
            i <= counts@.len(),
            sum(counts@) <= usize::MAX,
            total == sum(counts@.take(i as int)),
        decreases counts@.len() - i,
    {
        proof {
            assert(counts@.take(i + 1).drop_last() =~= counts@.take(i as int));
            lemma_sum_prefix(counts@, i + 1);
        }
        total = total + counts[i];
        i += 1;
    }
    assert(counts@.take(i as int) =~= counts@);
    total
}

/// Puts `code` into a sorted, duplicate-free list unless it is there already.
fn note_code(unique: &mut Vec<i32>, code: i32)
    requires
        strictly_ascending(old(unique)@),
    ensures
        strictly_ascending(final(unique)@),
        forall|c: i32| final(unique)@.contains(c) <==> old(unique)@.contains(c) || c == code,
{
    let mut at: usize = 0;
    while at < unique.len() && unique[at] < code
        invariant
            at <= unique@.len(),
            unique@ == old(unique)@,
            forall|j: int| 0 <= j < at ==> unique@[j] < code,
        decreases unique@.len() - at,
    {
        at += 1;
    }
    if at < unique.len() && unique[at] == code {
        assert(unique@.contains(code));
    } else {
        let ghost before = unique@;
        unique.insert(at, code);
        assert(unique@[at as int] == code);
        assert forall|c: i32| unique@.contains(c) <==> before.contains(c) || c == code by {
            if before.contains(c) {
                let k = choose|k: int| 0 <= k < before.len() && before[k] == c;
                if k < at {
                    assert(unique@[k] == c);
                } else {
                    assert(unique@[k + 1] == c);
                }
            }
            if unique@.contains(c) && c != code {
                let k = choose|k: int| 0 <= k < unique@.len() && unique@[k] == c;
                if k < at {
                    assert(before[k] == c);
                } else {
                    assert(before[k - 1] == c);
                }
            }
        }
    }
}

impl Telemetry {
    /// Whether the counters agree with each other: the total is the sum of
    /// the periods, and the distinct codes are those of the log.
    pub closed spec fn wf(&self) -> bool {
        &&& self.total_tests == sum(self.deltas@)
        &&& is_unique_projection(self.unique@, self.crash_log@)
    }

    /// The sorted, duplicate-free projection of the crash log.
    pub closed spec fn unique_codes(&self) -> Seq<i32> {
        self.unique@
    }

    /// The state at the start of a run: nothing tested, nothing crashed.
    pub fn new() -> (telemetry: Telemetry)
        ensures
            telemetry.wf(),
            telemetry@.total_tests == 0,
            telemetry@.deltas == Seq::<usize>::empty(),
            telemetry@.crash_log == Seq::<i32>::empty(),
    {
        Telemetry {
            total_tests: 0,
            deltas: Vec::new(),
            crash_log: Vec::new(),
            unique: Vec::new(),
        }
    }

    /// Tests executed since the run began.
    pub fn total_tests(&self) -> (total: usize)
        ensures
            total == self@.total_tests,
    {
        self.total_tests
    }

    /// Number of crashes seen.
    pub fn crash_count(&self) -> (count: usize)
        ensures
            count == self@.crash_log.len(),
    {
        self.crash_log.len()
    }

    /// The distinct exit codes among the crashes, in ascending order.
    pub fn unique_crashes(&self) -> (codes: &Vec<i32>)
        requires
            self.wf(),
        ensures
            codes@ == self.unique_codes(),
            is_unique_projection(codes@, self@.crash_log),
    {
        &self.unique
    }

    /// Whether the total can take these increments without leaving `usize`.
    pub fn can_absorb(&self, increments: &Vec<usize>) -> (fits: bool)
        ensures
            fits <==> self@.total_tests + sum(increments@) <= usize::MAX,
    {
        checked_total(self.total_tests, increments).is_some()
    }

    /// Folds one sampling period into the statistics.
    ///
    /// `increments` are the test counts and `crashes` the exit codes that the
    /// workers reported since the previous sample. The total grows by the sum
    /// of the increments, that sum is appended as the period's delta, the
    /// codes are appended to the crash log, and the status line is drawn from
    /// the state so reached.
    pub fn sample(&mut self, increments: &Vec<usize>, crashes: &Vec<i32>) -> (line: StatusLine)
        requires
            old(self).wf(),
            old(self)@.total_tests + sum(increments@) <= usize::MAX,
        ensures
            final(self).wf(),
            final(self)@.total_tests == old(self)@.total_tests + sum(increments@),
            final(self)@.deltas == old(self)@.deltas.push(sum(increments@) as usize),
            final(self)@.crash_log == old(self)@.crash_log + crashes@,
            line.samples == final(self)@.deltas.len(),
            line.window_total == sum(final(self)@.deltas),
            line.crashes == final(self)@.crash_log.len(),
            line.unique_crashes == final(self)@.crash_log.to_set().len(),
            line.unique_crashes == final(self).unique_codes().len(),
            line.total_tests == final(self)@.total_tests,
    {
        let delta: usize = total_of(increments);
        self.total_tests = self.total_tests + delta;
        self.deltas.push(delta);
        assert(self.deltas@.drop_last() =~= old(self).deltas@);

        let mut i: usize = 0;
        while i < crashes.len()
            invariant
                i <= crashes@.len(),
                self.total_tests == sum(self.deltas@),
                self.total_tests == old(self).total_tests + sum(increments@),
                self.deltas@ == old(self).deltas@.push(sum(increments@) as usize),
                self.crash_log@ == old(self).crash_log@ + crashes@.take(i as int),
                is_unique_projection(self.unique@, self.crash_log@),
            decreases crashes@.len() - i,
        {
            let code = crashes[i];
            let ghost log_before = self.crash_log@;
            self.crash_log.push(code);
            note_code(&mut self.unique, code);
            proof {
                assert(crashes@.take(i + 1) =~= crashes@.take(i as int).push(code));
                assert(self.crash_log@ =~= old(self).crash_log@ + crashes@.take(i + 1));
                assert forall|c: i32| self.crash_log@.contains(c) <==> log_before.contains(c) || c
                    == code by {
                    if log_before.contains(c) {
                        let k = choose|k: int| 0 <= k < log_before.len() && log_before[k] == c;
                        assert(self.crash_log@[k] == c);
                    }
                    if c == code {
                        assert(self.crash_log@[log_before.len() as int] == c);
                    }
                }
            }
            i += 1;
        }
        proof {
            assert(crashes@.take(i as int) =~= crashes@);
            lemma_projection_counts(self.unique@, self.crash_log@);
        }
        StatusLine {
            samples: self.deltas.len(),
            window_total: self.total_tests,
            crashes: self.crash_log.len(),
            unique_crashes: self.unique.len(),
            total_tests: self.total_tests,
        }
    }

    /// In a well-formed state the tests counted in total are exactly those
    /// counted period by period.
    pub proof fn lemma_total_is_window_sum(&self)
        requires
            self.wf(),
        ensures
            self@.total_tests == sum(self@.deltas),
            is_unique_projection(self.unique_codes(), self@.crash_log),
    {
    }
}

/// The unique projection of a log has as many entries as the log has
/// distinct codes.
pub proof fn lemma_projection_counts(unique: Seq<i32>, log: Seq<i32>)
    requires
        is_unique_projection(unique, log),
    ensures
        unique.len() == log.to_set().len(),
{
    assert(unique.no_duplicates());
    unique.unique_seq_to_set();
    assert(unique.to_set() =~= log.to_set());
}

/// A log has exactly one unique projection.
pub proof fn lemma_projection_is_unique(first: Seq<i32>, second: Seq<i32>, log: Seq<i32>)
    requires
        is_unique_projection(first, log),
        is_unique_projection(second, log),
    ensures
        first == second,
{
    lemma_ascending_same_codes(first, second);
}

/// Two strictly ascending sequences that hold the same codes are equal.
proof fn lemma_ascending_same_codes(first: Seq<i32>, second: Seq<i32>)
    requires
        strictly_ascending(first),
        strictly_ascending(second),
        forall|code: i32| first.contains(code) <==> second.contains(code),
    ensures
        first == second,
    decreases first.len(),
{
    if first.len() == 0 {
        if second.len() > 0 {
            assert(second.contains(second[0]));
        }
        assert(first =~= second);
    } else {
        assert(first.contains(first.last()));
        assert(second.contains(first.last()));
        assert(second.contains(second.last()));
        assert(first.contains(second.last()));
        let a = choose|a: int| 0 <= a < second.len() && second[a] == first.last();
        let b = choose|b: int| 0 <= b < first.len() && first[b] == second.last();
        assert(first.last() == second.last());
        let head_first = first.drop_last();
        let head_second = second.drop_last();
        assert forall|code: i32| head_first.contains(code) <==> head_second.contains(code) by {
            if head_first.contains(code) {
                let k = choose|k: int| 0 <= k < head_first.len() && head_first[k] == code;
                assert(first[k] == code);
                assert(first.contains(code));
                let m = choose|m: int| 0 <= m < second.len() && second[m] == code;
                assert(head_second[m] == code);
            }
            if head_second.contains(code) {
                let k = choose|k: int| 0 <= k < head_second.len() && head_second[k] == code;
                assert(second[k] == code);
                assert(second.contains(code));
                let m = choose|m: int| 0 <= m < first.len() && first[m] == code;
                assert(head_first[m] == code);
            }
        }
        lemma_ascending_same_codes(head_first, head_second);
        assert(first =~= head_first.push(first.last()));
        assert(second =~= head_second.push(second.last()));
    }
}

} // verus!
