//! The tally of one session: a fixed number of probes, one after the other.
//!
//! The caller runs the task, waits between runs and hands over each outcome.
//! A failed probe is counted and nothing else: the session goes on to the next
//! run whatever the failure was.

use crate::stats::{same_shaped, summarize, is_summary, Summary};
use crate::{Failure, Measurement, Task};
use vstd::prelude::*;

verus! {

/// How many probes a session makes where the caller names no number.
pub const DEFAULT_COUNT: usize = 5;

/// The tally as a plain value.
pub struct Tally {
    /// Probes still to be made.
    pub remaining: nat,
    /// What the successful probes measured, in the order of the runs.
    pub results: Seq<Measurement>,
    /// Probes that failed.
    pub failures: nat,
}

/// How many probes are made for the number the caller named; none is no session.
pub open spec fn planned_runs(count: Option<usize>) -> Option<usize> {
    match count {
        None => Some(DEFAULT_COUNT),
        Some(n) => if n == 0 {
            None
        } else {
            Some(n)
        },
    }
}

/// Whether a measurement has the shape of those gathered before it.
pub open spec fn fits_shape(results: Seq<Measurement>, m: Measurement) -> bool {
    results.len() == 0 || (results[0] is Time <==> m is Time)
}

/// The tally after one more run with the given outcome. Once all runs are
/// made nothing changes. A measurement of another shape than those before it
/// is counted as a failure.
pub open spec fn tally_after(t: Tally, outcome: Result<Measurement, Failure>) -> Tally {
    if t.remaining == 0 {
        t
    } else {
        match outcome {
            Ok(m) => if fits_shape(t.results, m) {
                Tally {
                    remaining: (t.remaining - 1) as nat,
                    results: t.results.push(m),
                    failures: t.failures,
                }
            } else {
                Tally {
                    remaining: (t.remaining - 1) as nat,
                    results: t.results,
                    failures: t.failures + 1,
                }
            },
            Err(_) => Tally {
                remaining: (t.remaining - 1) as nat,
                results: t.results,
                failures: t.failures + 1,
            },
        }
    }
}

/// A session in progress.
pub struct Session {
    remaining: usize,
    results: Vec<Measurement>,
    failures: usize,
}

impl View for Session {
    type V = Tally;

    closed spec fn view(&self) -> Tally {
        Tally {
            remaining: self.remaining as nat,
            results: self.results@,
            failures: self.failures as nat,
        }
    }
}

impl Session {
    #[verifier::type_invariant]
    spec fn well_formed(self) -> bool {
        &&& self.remaining + self.results@.len() + self.failures <= usize::MAX
        &&& same_shaped(self.results@)
    }

    /// Begins a session of `count` probes, or of five where no number is
    /// named. A session of no probe at all is refused as a misuse.
    pub fn start(count: Option<usize>) -> (s: Result<Session, Failure>)
        ensures
            match planned_runs(count) {
                Some(n) => s matches Ok(session) && session@ == (Tally {
                    remaining: n as nat,
                    results: Seq::empty(),
                    failures: 0,
                }),
                None => s matches Err(e) && e == Failure::Usage,
            },
    {
        let n = match count {
            None => DEFAULT_COUNT,
            Some(n) => n,
        };
        if n == 0 {
            return Err(Failure::Usage);
        }
        Ok(Session { remaining: n, results: Vec::with_capacity(n), failures: 0 })
    }

    /// Whether a probe is still to be made.
    pub fn wants_run(&self) -> (more: bool)
        ensures
            more == (self@.remaining > 0),
    {
        self.remaining > 0
    }

    /// The session after one more run with the given outcome.
    pub fn record(self, outcome: Result<Measurement, Failure>) -> (next: Session)
        ensures
            next@ == tally_after(self@, outcome),
    {
        proof {
            use_type_invariant(&self);
        }
        let Session { remaining, results, failures } = self;
        if remaining == 0 {
            return Session { remaining, results, failures };
        }
        let fitting = match outcome {
            Ok(m) => {
                if results.len() == 0 {
                    Some(m)
                } else {
                    let first_is_time = match results[0] {
                        Measurement::Time(_) => true,
                        Measurement::Speed(_, _) => false,
                    };
                    let is_time = match m {
                        Measurement::Time(_) => true,
                        Measurement::Speed(_, _) => false,
                    };
                    if first_is_time == is_time {
                        Some(m)
                    } else {
                        None
                    }
                }
            },
            Err(_) => None,
        };
        match fitting {
            Some(m) => {
                let ghost before = results@;
                let mut results = results;
                results.push(m);
                proof {
                    let after = results@;
                    if before.len() == 0 || before[0] is Time {
                        if m is Time {
                            assert forall|i: int| 0 <= i < after.len() implies (
                            #[trigger] after[i]) is Time by {
                                if i < before.len() {
                                    assert(after[i] == before[i]);
                                }
                            }
                        }
                    }
                    if before.len() == 0 || !(before[0] is Time) {
                        if m is Speed {
                            assert forall|i: int| 0 <= i < after.len() implies (
                            #[trigger] after[i]) is Speed by {
                                if i < before.len() {
                                    assert(after[i] == before[i]);
                                    assert(before[0] is Speed);
                                }
                            }
                        }
                    }
                }
                Session { remaining: remaining - 1, results, failures }
            },
            None => Session { remaining: remaining - 1, results, failures: failures + 1 },
        }
    }

    /// The session after the task has run once more.
    pub fn run_once<T: Task>(self, task: &mut T) -> (next: Session)
        ensures
            exists|outcome: Result<Measurement, Failure>|
                next@ == #[trigger] tally_after(self@, outcome),
    {
        let outcome = task.run();
        self.record(outcome)
    }

    /// What the session amounts to so far.
    pub fn summary(&self) -> (s: Summary)
        ensures
            is_summary(self@.results, self@.failures as int, s),
    {
        proof {
            use_type_invariant(self);
        }
        summarize(&self.results, self.failures)
    }
}

/// A probe that runs into its deadline is lost and nothing more: the tally
/// counts one more failure, keeps its results, and has as many runs before it
/// as after any other outcome.
pub proof fn lemma_timeout_counts_as_loss(t: Tally, other: Result<Measurement, Failure>)
    requires
        t.remaining > 0,
    ensures
        tally_after(t, Err(Failure::Timeout)).failures == t.failures + 1,
        tally_after(t, Err(Failure::Timeout)).results == t.results,
        tally_after(t, Err(Failure::Timeout)).remaining == tally_after(t, other).remaining,
{
}

} // verus!
