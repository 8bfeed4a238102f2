//! The run's shared counters and summary: one increment per finished
//! job, `failed` only for failures, and the tally of a whole run.

use vstd::prelude::*;
use crate::executor::JobOutcome;

verus! {

/// The counters every worker reports to, under one lock.
pub struct RunCounters {
    pub completed: u64,
    pub failed: u64,
}

/// What a run returns once every job has finished.
#[derive(PartialEq, Eq, Structural, Clone, Copy, Debug)]
pub struct RunSummary {
    pub completed: u64,
    pub failed: u64,
}

/// How many of a run's outcomes are failures.
pub open spec fn failure_count(s: Seq<JobOutcome>) -> int
    decreases s.len(),
{
    if s.len() == 0 {
        0
    } else {
        failure_count(s.drop_last()) + if s.last() matches JobOutcome::Failure { .. } {
            1int
        } else {
            0int
        }
    }
}

proof fn lemma_failure_count_bound(s: Seq<JobOutcome>)
    ensures
        0 <= failure_count(s) <= s.len(),
    decreases s.len(),
{
    if s.len() > 0 {
        lemma_failure_count_bound(s.drop_last());
    }
}

impl RunCounters {
    /// Counters never read more failures than completions.
    pub open spec fn wf(self) -> bool {
        self.failed <= self.completed
    }

    /// Fresh counters.
    pub fn new() -> (c: Self)
        ensures
            c.completed == 0,
            c.failed == 0,
            c.wf(),
    {
        RunCounters { completed: 0, failed: 0 }
    }

    /// Record one finished job: `completed` always moves by one,
    /// `failed` only for a failure.
    pub fn record(&mut self, outcome_failed: bool)
        requires
            old(self).wf(),
            old(self).completed < u64::MAX,
        ensures
            final(self).completed == old(self).completed + 1,
            final(self).failed == old(self).failed + if outcome_failed {
                1int
            } else {
                0int
            },
            final(self).wf(),
    {
        self.completed = self.completed + 1;
        if outcome_failed {
            self.failed = self.failed + 1;
        }
    }

    /// The summary the run reports.
    pub fn summary(&self) -> (s: RunSummary)
        ensures
            s.completed == self.completed,
            s.failed == self.failed,
    {
        RunSummary { completed: self.completed, failed: self.failed }
    }
}

/// Tally a whole run's outcomes: every job completed, failures counted.
#[verifier::loop_isolation(false)]
pub fn tally_outcomes(outcomes: &Vec<JobOutcome>) -> (s: RunSummary)
    requires
        outcomes@.len() <= u64::MAX,
    ensures
        s.completed == outcomes@.len(),
        s.failed == failure_count(outcomes@),
{
    let mut counters = RunCounters::new();
    let mut i: usize = 0;
    let n = outcomes.len();
    proof {
        assert(outcomes@.take(0) =~= Seq::<JobOutcome>::empty());
    }
    while i < n
        invariant
            i <= n,
            n == outcomes@.len(),
            counters.wf(),
            counters.completed == i,
            counters.failed == failure_count(outcomes@.take(i as int)),
        decreases n - i,
    {
        proof {
            lemma_failure_count_bound(outcomes@.take(i as int));
            assert(outcomes@.take(i as int + 1).drop_last() =~= outcomes@.take(i as int));
            assert(outcomes@.take(i as int + 1).last() == outcomes@[i as int]);
        }
        counters.record(outcomes[i].is_failure());
        i += 1;
    }
    proof {
        assert(outcomes@.take(n as int) =~= outcomes@);
    }
    counters.summary()
}

/// A pool must have at least one worker; a size of zero is a
/// configuration error and no job runs.
pub fn validate_pool_size(n: usize) -> (ok: bool)
    ensures
        ok == (n >= 1),
{
    n >= 1
}

/// The whole process's exit code: per-job failures are reported, not
/// fatal; only a catalog that could not be produced is.
pub fn run_exit_code(catalog_ok: bool) -> (c: i32)
    ensures
        catalog_ok ==> c == 0,
        !catalog_ok ==> c == 1,
{
    if catalog_ok {
        0
    } else {
        1
    }
}

} // verus!
