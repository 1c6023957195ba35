//! The bounded job runner as a state machine. The caller owns the worker
//! pool: it asks what to do next, starts the job it is told to start, and
//! reports each job that has ended. The decisions are made here: how many
//! jobs may be in flight, and when failures halt the run.

use vstd::prelude::*;
use crate::error::PipelineError;

verus! {

/// What the caller is to do next.
#[derive(Debug, Clone, Copy)]
pub enum Action {
    /// Start the job with this index in the batch.
    Dispatch(usize),
    /// Wait for a job in flight to end, then report it.
    Wait,
    /// Every job was run and the failures stayed within the threshold.
    Succeeded,
    /// The failures went over the threshold; holds their number.
    Halted(usize),
}

/// The counters of one run over a batch.
#[derive(Debug)]
pub struct Runner {
    total: usize,
    width: usize,
    halt: usize,
    dispatched: usize,
    finished: usize,
    failures: usize,
}

/// How many jobs of a batch of `total` may be in flight at once: `width`, and
/// no bound but the batch itself where `width` is zero.
pub open spec fn pool_limit(total: nat, width: nat) -> nat {
    if width == 0 {
        total
    } else {
        width
    }
}

/// How many of `outcomes` are failures (`false`).
pub open spec fn failures_in(outcomes: Seq<bool>) -> nat
    decreases outcomes.len(),
{
    if outcomes.len() == 0 {
        0
    } else {
        failures_in(outcomes.drop_last()) + if outcomes.last() { 0nat } else { 1nat }
    }
}

impl Runner {
    /// The number of jobs in the batch.
    pub closed spec fn total(&self) -> nat {
        self.total as nat
    }

    /// The configured width of the pool.
    pub closed spec fn width(&self) -> nat {
        self.width as nat
    }

    /// The number of failures that the run tolerates.
    pub closed spec fn halt(&self) -> nat {
        self.halt as nat
    }

    /// The number of jobs started so far; they are the first of the batch.
    pub closed spec fn dispatched(&self) -> nat {
        self.dispatched as nat
    }

    /// The number of jobs reported as ended.
    pub closed spec fn finished(&self) -> nat {
        self.finished as nat
    }

    /// The number of jobs reported as failed.
    pub closed spec fn failures(&self) -> nat {
        self.failures as nat
    }

    /// The number of jobs started and not yet reported.
    pub open spec fn in_flight(&self) -> int {
        self.dispatched() - self.finished()
    }

    /// Whether the failures are over the threshold.
    pub open spec fn halted(&self) -> bool {
        self.failures() > self.halt()
    }

    /// The counters are consistent, and the pool is not over its limit. This
    /// holds of every runner there is.
    #[verifier::type_invariant]
    pub closed spec fn wf(&self) -> bool {
        &&& self.finished <= self.dispatched <= self.total
        &&& self.failures <= self.finished
        &&& self.dispatched - self.finished <= pool_limit(self.total as nat, self.width as nat)
    }

    /// The decision in a state: start the next job while the run is not
    /// halted, the batch not used up and the pool not full; else wait while
    /// anything is in flight; else report how the run ended.
    pub open spec fn decision(&self) -> Action {
        if !self.halted() && self.dispatched() < self.total() && self.in_flight() < pool_limit(
            self.total(),
            self.width(),
        ) {
            Action::Dispatch(self.dispatched() as usize)
        } else if self.in_flight() > 0 {
            Action::Wait
        } else if self.halted() {
            Action::Halted(self.failures() as usize)
        } else {
            Action::Succeeded
        }
    }

    /// A run over `total` jobs, none started.
    pub fn new(total: usize, width: usize, halt: usize) -> (r: Runner)
        ensures
            r.total() == total,
            r.width() == width,
            r.halt() == halt,
            r.dispatched() == 0,
            r.finished() == 0,
            r.failures() == 0,
    {
        Runner { total, width, halt, dispatched: 0, finished: 0, failures: 0 }
    }

    /// The number of jobs started so far.
    pub fn attempted(&self) -> (n: usize)
        ensures
            n == self.dispatched(),
    {
        self.dispatched
    }

    /// The number of jobs reported as failed.
    pub fn failed(&self) -> (n: usize)
        ensures
            n == self.failures(),
    {
        self.failures
    }

    /// Decides what the caller does next. A `Dispatch` counts the job as
    /// started; every other answer leaves the state as it was.
    pub fn next_action(&mut self) -> (a: Action)
        ensures
            a == old(self).decision(),
            final(self).total() == old(self).total(),
            final(self).width() == old(self).width(),
            final(self).halt() == old(self).halt(),
            final(self).finished() == old(self).finished(),
            final(self).failures() == old(self).failures(),
            final(self).dispatched() == old(self).dispatched() + if a is Dispatch {
                1nat
            } else {
                0nat
            },
    {
        proof {
            use_type_invariant(&*self);
        }
        let in_flight: usize = self.dispatched - self.finished;
        let limit: usize = if self.width == 0 {
            self.total
        } else {
            self.width
        };
        if self.failures <= self.halt && self.dispatched < self.total && in_flight < limit {
            let index: usize = self.dispatched;
            self.dispatched = self.dispatched + 1;
            Action::Dispatch(index)
        } else if in_flight > 0 {
            Action::Wait
        } else if self.failures > self.halt {
            Action::Halted(self.failures)
        } else {
            Action::Succeeded
        }
    }

    /// Records that a job in flight has ended, with or without success.
    /// Where nothing is in flight the report is ignored.
    pub fn job_finished(&mut self, success: bool)
        ensures
            final(self).total() == old(self).total(),
            final(self).width() == old(self).width(),
            final(self).halt() == old(self).halt(),
            final(self).dispatched() == old(self).dispatched(),
            final(self).finished() == old(self).finished() + if old(self).in_flight() > 0 {
                1nat
            } else {
                0nat
            },
            final(self).failures() == old(self).failures() + if old(self).in_flight() > 0
                && !success {
                1nat
            } else {
                0nat
            },
    {
        proof {
            use_type_invariant(&*self);
        }
        if self.dispatched > self.finished {
            self.finished = self.finished + 1;
            if !success {
                self.failures = self.failures + 1;
            }
        }
    }
}

/// In every state the jobs in flight are within the pool's limit, no more
/// jobs were started than the batch holds, and no more failed than ended.
pub proof fn lemma_pool_bounded(r: Runner)
    requires
        r.wf(),
    ensures
        0 <= r.in_flight() <= pool_limit(r.total(), r.width()),
        r.dispatched() <= r.total(),
        r.failures() <= r.finished(),
{
}

/// Once the failures are over the threshold no job is started any more, and
/// the run is never reported as a success; while they are within it, the run
/// is never reported as halted, and a success is reported only when every
/// job of the batch was started and has ended.
pub proof fn lemma_halt_policy(r: Runner)
    requires
        r.wf(),
    ensures
        r.halted() ==> !(r.decision() is Dispatch) && !(r.decision() is Succeeded),
        !r.halted() ==> !(r.decision() is Halted),
        r.decision() is Succeeded ==> r.dispatched() == r.total() && r.finished() == r.total(),
        r.decision() is Halted ==> r.in_flight() == 0 && r.decision() == Action::Halted(
            r.failures() as usize,
        ),
{
}

/// A longer prefix holds at least as many failures.
pub proof fn lemma_failures_monotone(outcomes: Seq<bool>, a: int, b: int)
    requires
        0 <= a <= b <= outcomes.len(),
    ensures
        failures_in(outcomes.take(a)) <= failures_in(outcomes.take(b)),
    decreases b - a,
{
    if a < b {
        lemma_failures_monotone(outcomes, a, b - 1);
        assert(outcomes.take(b).drop_last() =~= outcomes.take(b - 1));
    }
}

/// Runs a batch whose jobs end in the order in which they were started,
/// `outcomes[i]` telling whether job `i` succeeds. Returns the number of jobs
/// started and how the run ended.
///
/// The run succeeds exactly if the failures in the whole batch are within
/// the threshold, and then every job was started. Otherwise it is halted
/// with the number of failures among the jobs started; each of these was
/// started while the failures reported were within the threshold, and the
/// pool was full, or the batch used up, when the threshold was passed.
pub fn run_in_order(outcomes: &Vec<bool>, width: usize, halt: usize) -> (r: (
    usize,
    Result<(), PipelineError>,
))
    ensures
        r.0 <= outcomes.len(),
        failures_in(outcomes@) <= halt ==> r.1 is Ok && r.0 == outcomes.len(),
        failures_in(outcomes@) > halt ==> {
            let limit = pool_limit(outcomes@.len(), width as nat);
            &&& r.1 == Err::<(), PipelineError>(
                PipelineError::RunHalted(failures_in(outcomes@.take(r.0 as int)) as usize),
            )
            &&& halt < failures_in(outcomes@.take(r.0 as int)) <= usize::MAX
            &&& r.0 >= limit ==> failures_in(outcomes@.take(r.0 - limit)) <= halt
            &&& r.0 == outcomes.len() || (r.0 >= limit && failures_in(
                outcomes@.take(r.0 - limit + 1),
            ) > halt)
        },
{
    let ghost o = outcomes@;
    let ghost limit = pool_limit(o.len(), width as nat);
    let mut runner = Runner::new(outcomes.len(), width, halt);
    loop
        invariant
            o == outcomes@,
            limit == pool_limit(o.len(), width as nat),
            runner.total() == o.len(),
            runner.width() == width,
            runner.halt() == halt,
            runner.finished() <= runner.dispatched() <= o.len(),
            runner.in_flight() <= limit,
            runner.failures() == failures_in(o.take(runner.finished() as int)),
            runner.dispatched() >= limit ==> failures_in(o.take(runner.dispatched() - limit))
                <= halt,
            runner.halted() ==> runner.dispatched() == o.len() || (runner.dispatched() >= limit
                && failures_in(o.take(runner.dispatched() - limit + 1)) > halt),
        decreases 2 * o.len() - runner.dispatched() - runner.finished(),
    {
        let ghost before = runner;
        proof {
            use_type_invariant(&runner);
        }
        match runner.next_action() {
            Action::Dispatch(_) => {
                proof {
                    if runner.dispatched() >= limit {
                        lemma_failures_monotone(
                            o,
                            runner.dispatched() - limit,
                            before.finished() as int,
                        );
                    }
                }
            },
            Action::Wait => {
                let done: usize = runner.finished;
                let success: bool = outcomes[done];
                runner.job_finished(success);
                proof {
                    use_type_invariant(&runner);
                    assert(o.take(done + 1).drop_last() =~= o.take(done as int));
                    if runner.halted() && !before.halted() && runner.dispatched() != o.len() {
                        assert(before.in_flight() == limit);
                    }
                }
            },
            Action::Succeeded => {
                proof {
                    assert(o.take(o.len() as int) =~= o);
                }
                return (runner.attempted(), Ok(()));
            },
            Action::Halted(n) => {
                proof {
                    lemma_failures_monotone(o, runner.dispatched() as int, o.len() as int);
                    assert(o.take(o.len() as int) =~= o);
                }
                return (runner.attempted(), Err(PipelineError::RunHalted(n)));
            },
        }
    }
}

/// How many jobs are marked in `done` and fail by `outcomes`.
pub open spec fn failures_among(outcomes: Seq<bool>, done: Seq<bool>) -> nat
    recommends
        done.len() == outcomes.len(),
    decreases outcomes.len(),
{
    if outcomes.len() == 0 || done.len() != outcomes.len() {
        0
    } else {
        failures_among(outcomes.drop_last(), done.drop_last()) + if done.last()
            && !outcomes.last() {
            1nat
        } else {
            0nat
        }
    }
}

proof fn lemma_among_bounded(outcomes: Seq<bool>, done: Seq<bool>)
    requires
        done.len() == outcomes.len(),
    ensures
        failures_among(outcomes, done) <= failures_in(outcomes),
        (forall|i: int| 0 <= i < done.len() ==> done[i]) ==> failures_among(outcomes, done)
            == failures_in(outcomes),
        (forall|i: int| 0 <= i < done.len() ==> !done[i]) ==> failures_among(outcomes, done) == 0,
    decreases outcomes.len(),
{
    if outcomes.len() > 0 {
        let d = done.drop_last();
        lemma_among_bounded(outcomes.drop_last(), d);
        assert forall|i: int| 0 <= i < d.len() implies d[i] == done[i] by {}
        if forall|i: int| 0 <= i < done.len() ==> done[i] {
            assert forall|i: int| 0 <= i < d.len() implies d[i] by {
                assert(done[i]);
            }
        }
        if forall|i: int| 0 <= i < done.len() ==> !done[i] {
            assert forall|i: int| 0 <= i < d.len() implies !d[i] by {
                assert(!done[i]);
            }
        }
    }
}

proof fn lemma_among_mark(outcomes: Seq<bool>, done: Seq<bool>, k: int)
    requires
        done.len() == outcomes.len(),
        0 <= k < done.len(),
        !done[k],
    ensures
        failures_among(outcomes, done.update(k, true)) == failures_among(outcomes, done) + if
            outcomes[k] {
            0nat
        } else {
            1nat
        },
    decreases outcomes.len(),
{
    let marked = done.update(k, true);
    if k == done.len() - 1 {
        assert(marked.drop_last() =~= done.drop_last());
    } else {
        assert(marked.drop_last() =~= done.drop_last().update(k, true));
        lemma_among_mark(outcomes.drop_last(), done.drop_last(), k);
    }
}

/// Runs a batch whose jobs end in any order, `outcomes[i]` telling whether
/// job `i` succeeds. At the n-th wait, `picks[n]` chooses the job that ends,
/// by its place among the jobs in flight, oldest first; places wrap round,
/// and the oldest ends where `picks` is used up. Returns the number of jobs
/// started and how the run ended.
///
/// Whatever the order: the run succeeds exactly if the failures in the whole
/// batch are within the threshold, and then every job was started.
/// Otherwise it is halted, and the failures counted are over the threshold
/// by no more than the pool's limit.
pub fn run_in_any_order(
    outcomes: &Vec<bool>,
    picks: &Vec<usize>,
    width: usize,
    halt: usize,
) -> (r: (usize, Result<(), PipelineError>))
    ensures
        r.0 <= outcomes.len(),
        failures_in(outcomes@) <= halt ==> r.1 is Ok && r.0 == outcomes.len(),
        failures_in(outcomes@) > halt ==> {
            &&& r.1 is Err
            &&& r.1->Err_0 is RunHalted
            &&& halt < r.1->Err_0->RunHalted_0 <= failures_in(outcomes@)
            &&& r.1->Err_0->RunHalted_0 <= halt + pool_limit(outcomes@.len(), width as nat)
        },
{
    let ghost o = outcomes@;
    let ghost limit = pool_limit(o.len(), width as nat);
    let ghost mut done: Seq<bool> = Seq::new(o.len(), |i: int| false);
    let mut runner = Runner::new(outcomes.len(), width, halt);
    let mut in_flight: Vec<usize> = Vec::new();
    let mut waits: usize = 0;
    proof {
        lemma_among_bounded(o, done);
    }
    loop
        invariant
            o == outcomes@,
            limit == pool_limit(o.len(), width as nat),
            done.len() == o.len(),
            runner.total() == o.len(),
            runner.width() == width,
            runner.halt() == halt,
            runner.finished() <= runner.dispatched() <= o.len(),
            in_flight@.len() == runner.in_flight(),
            runner.in_flight() <= limit,
            in_flight@.no_duplicates(),
            forall|j: int|
                0 <= j < in_flight@.len() ==> in_flight@[j] < runner.dispatched()
                    && !done[in_flight@[j] as int],
            forall|i: int|
                0 <= i < runner.dispatched() ==> done[i] || in_flight@.contains(i as usize),
            forall|i: int| runner.dispatched() <= i < done.len() ==> !done[i],
            runner.failures() == failures_among(o, done),
            runner.halted() ==> runner.failures() + runner.in_flight() <= halt + limit,
            waits <= runner.finished(),
        decreases 2 * o.len() - runner.dispatched() - runner.finished(),
    {
        let ghost before = runner;
        let ghost flying = in_flight@;
        proof {
            use_type_invariant(&runner);
        }
        match runner.next_action() {
            Action::Dispatch(index) => {
                in_flight.push(index);
                proof {
                    assert forall|i: int| 0 <= i < runner.dispatched() implies done[i]
                        || in_flight@.contains(i as usize) by {
                        if i < before.dispatched() {
                            if !done[i] {
                                let j = choose|j: int|
                                    0 <= j < flying.len() && flying[j] == i as usize;
                                assert(in_flight@[j] == i as usize);
                            }
                        } else {
                            assert(in_flight@[flying.len() as int] == i as usize);
                        }
                    }
                }
            },
            Action::Wait => {
                let place: usize = if waits < picks.len() {
                    picks[waits] % in_flight.len()
                } else {
                    0
                };
                let job: usize = in_flight.remove(place);
                let success: bool = outcomes[job];
                runner.job_finished(success);
                waits = waits + 1;
                proof {
                    use_type_invariant(&runner);
                    lemma_among_mark(o, done, job as int);
                    done = done.update(job as int, true);
                    assert forall|j: int| 0 <= j < in_flight@.len() implies in_flight@[j]
                        < runner.dispatched() && !done[in_flight@[j] as int] by {
                        let from: int = if j < place { j } else { j + 1 };
                        assert(in_flight@[j] == flying[from]);
                        assert(flying[from] != flying[place as int]);
                    }
                    assert forall|a: int, b: int|
                        0 <= a < in_flight@.len() && 0 <= b < in_flight@.len() && a
                            != b implies in_flight@[a] != in_flight@[b] by {
                        let fa: int = if a < place { a } else { a + 1 };
                        let fb: int = if b < place { b } else { b + 1 };
                        assert(in_flight@[a] == flying[fa]);
                        assert(in_flight@[b] == flying[fb]);
                    }
                    assert forall|i: int| 0 <= i < runner.dispatched() implies done[i]
                        || in_flight@.contains(i as usize) by {
                        if i != job {
                            if !done[i] {
                                let j = choose|j: int|
                                    0 <= j < flying.len() && flying[j] == i as usize;
                                let to: int = if j < place { j } else { j - 1 };
                                assert(in_flight@[to] == i as usize);
                            }
                        }
                    }
                }
            },
            Action::Succeeded => {
                proof {
                    assert forall|i: int| 0 <= i < done.len() implies done[i] by {
                        if !done[i] {
                            assert(in_flight@.contains(i as usize));
                        }
                    }
                    lemma_among_bounded(o, done);
                }
                return (runner.attempted(), Ok(()));
            },
            Action::Halted(n) => {
                proof {
                    lemma_among_bounded(o, done);
                }
                return (runner.attempted(), Err(PipelineError::RunHalted(n)));
            },
        }
    }
}

} // verus!
