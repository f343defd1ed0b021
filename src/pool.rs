use vstd::prelude::*;
use crate::envelope::{ClosureHandle, Request, Response, ReturnKind};
use crate::error::{BridgeError, HostError};
use crate::pump::{respond_spec, HostOutcome};

verus! {

/// Where a background job stands.
#[derive(Debug)]
pub enum JobState<V> {
    /// Waiting for a pool worker; holds the job's input.
    Queued(V),
    /// A pool worker sends the job's request to the host pump.
    Running,
    /// Finished; the result is kept for every later `resolve`.
    Done(Result<V, BridgeError>),
}

/// One background job: a serialized closure and where it stands.
#[derive(Debug)]
pub struct Job<V> {
    pub closure: ClosureHandle,
    pub state: JobState<V>,
}

/// The job table of the background pool. A job's index is its deferred
/// handle. Jobs start in the order they were submitted; at most
/// `queue_limit` wait at once.
#[derive(Debug)]
pub struct Pool<V> {
    pub queue_limit: usize,
    pub jobs: Vec<Job<V>>,
}

/// The mathematical state of a pool.
pub struct PoolModel<V> {
    pub queue_limit: usize,
    pub jobs: Seq<Job<V>>,
}

impl<V> View for Pool<V> {
    type V = PoolModel<V>;

    open spec fn view(&self) -> PoolModel<V> {
        PoolModel { queue_limit: self.queue_limit, jobs: self.jobs@ }
    }
}

/// How many of `jobs` wait for a worker.
pub open spec fn num_queued<V>(jobs: Seq<Job<V>>) -> nat
    decreases jobs.len(),
{
    if jobs.len() == 0 {
        0
    } else {
        num_queued(jobs.drop_last()) + if jobs.last().state is Queued {
            1nat
        } else {
            0nat
        }
    }
}

/// The result a job keeps, from what its worker got back from the host pump.
pub open spec fn job_result<V>(outcome: Result<Response<V>, BridgeError>) -> Result<V, BridgeError> {
    match outcome {
        Ok(response) => response.value_result(),
        Err(e) => Err(e),
    }
}

/// The result of calling a value-to-value closure directly, given what the
/// closure gave back.
pub open spec fn direct_result<V>(outcome: HostOutcome<V>) -> Result<V, BridgeError> {
    match outcome {
        HostOutcome::Value(v) => Ok(v),
        HostOutcome::Raised(m) => Err(BridgeError::Host(HostError::Raised(m))),
        _ => Err(BridgeError::Host(HostError::UnexpectedShape)),
    }
}

impl<V> PoolModel<V> {
    pub open spec fn is_first_queued(self, j: int) -> bool {
        &&& 0 <= j < self.jobs.len()
        &&& self.jobs[j].state is Queued
        &&& forall|k: int| 0 <= k < j ==> !(#[trigger] self.jobs[k].state is Queued)
    }

    pub open spec fn has_queued(self) -> bool {
        exists|j: int| 0 <= j < self.jobs.len() && #[trigger] self.jobs[j].state is Queued
    }

    pub open spec fn first_queued(self) -> int {
        choose|j: int| self.is_first_queued(j)
    }

    pub open spec fn with_state(self, j: int, st: JobState<V>) -> PoolModel<V> {
        PoolModel {
            jobs: self.jobs.update(j, Job { closure: self.jobs[j].closure, state: st }),
            ..self
        }
    }

    pub open spec fn submit(self, closure: ClosureHandle, input: V) -> (
        PoolModel<V>,
        Result<usize, BridgeError>,
    ) {
        if num_queued(self.jobs) >= self.queue_limit {
            (self, Err(BridgeError::QueueFull))
        } else {
            (
                PoolModel {
                    jobs: self.jobs.push(Job { closure, state: JobState::Queued(input) }),
                    ..self
                },
                Ok(self.jobs.len() as usize),
            )
        }
    }

    pub open spec fn start_next(self) -> (PoolModel<V>, Option<(usize, Request<V>)>) {
        if self.has_queued() {
            let j = self.first_queued();
            (
                self.with_state(j, JobState::Running),
                Some(
                    (
                        j as usize,
                        Request::ValueToValue {
                            closure: self.jobs[j].closure,
                            arg: self.jobs[j].state->Queued_0,
                        },
                    ),
                ),
            )
        } else {
            (self, None)
        }
    }

    pub open spec fn finish(self, job: int, outcome: Result<Response<V>, BridgeError>) -> (
        PoolModel<V>,
        Result<(), BridgeError>,
    ) {
        if 0 <= job < self.jobs.len() && self.jobs[job].state is Running {
            (self.with_state(job, JobState::Done(job_result(outcome))), Ok(()))
        } else {
            (self, Err(BridgeError::ProtocolViolation))
        }
    }

    pub open spec fn resolved(self, job: int) -> Option<Result<V, BridgeError>> {
        if 0 <= job < self.jobs.len() && self.jobs[job].state is Done {
            Some(self.jobs[job].state->Done_0)
        } else {
            None
        }
    }
}

proof fn lemma_first_queued<V>(p: PoolModel<V>, j: int)
    requires
        p.is_first_queued(j),
    ensures
        p.has_queued(),
        p.first_queued() == j,
{
    assert(p.jobs[j].state is Queued);
    let c = p.first_queued();
    assert(p.is_first_queued(c));
    if c < j {
        assert(!(p.jobs[c].state is Queued));
    } else if j < c {
        assert(!(p.jobs[j].state is Queued));
    }
}

/// Moves job `j` to `st` and hands back the state it left.
fn replace_job_state<V>(jobs: &mut Vec<Job<V>>, j: usize, st: JobState<V>) -> (prev: JobState<V>)
    requires
        j < old(jobs).len(),
    ensures
        prev == old(jobs)@[j as int].state,
        final(jobs)@ == old(jobs)@.update(
            j as int,
            Job { closure: old(jobs)@[j as int].closure, state: st },
        ),
{
    let job = jobs.remove(j);
    jobs.insert(j, Job { closure: job.closure, state: st });
    assert(jobs@ =~= old(jobs)@.update(j as int, Job { closure: job.closure, state: st }));
    job.state
}

impl<V> Pool<V> {
    /// An empty pool that lets at most `queue_limit` jobs wait at once.
    pub fn new(queue_limit: usize) -> (p: Pool<V>)
        ensures
            p@.queue_limit == queue_limit,
            p@.jobs.len() == 0,
    {
        Pool { queue_limit, jobs: Vec::new() }
    }

    /// How many jobs wait for a worker.
    pub fn queued(&self) -> (n: usize)
        ensures
            n == num_queued(self@.jobs),
    {
        let mut n: usize = 0;
        let mut i: usize = 0;
        while i < self.jobs.len()
            invariant
                i <= self.jobs.len(),
                n <= i,
                n == num_queued(self.jobs@.take(i as int)),
            decreases self.jobs.len() - i,
        {
            proof {
                let s = self.jobs@.take(i as int + 1);
                assert(s.drop_last() =~= self.jobs@.take(i as int));
                assert(s.last() == self.jobs@[i as int]);
            }
            match &self.jobs[i].state {
                JobState::Queued(_) => { n = n + 1; },
                _ => {},
            }
            i = i + 1;
        }
        assert(self.jobs@.take(i as int) =~= self.jobs@);
        n
    }

    /// Submits `closure` with `input` and returns the job's deferred handle,
    /// without waiting for anything. Fails with `QueueFull` while
    /// `queue_limit` jobs wait.
    pub fn submit(&mut self, closure: ClosureHandle, input: V) -> (r: Result<usize, BridgeError>)
        ensures
            (final(self)@, r) == old(self)@.submit(closure, input),
    {
        if self.queued() >= self.queue_limit {
            return Err(BridgeError::QueueFull);
        }
        let j = self.jobs.len();
        self.jobs.push(Job { closure, state: JobState::Queued(input) });
        Ok(j)
    }

    /// A pool worker takes the job that was submitted first among those that
    /// wait, and gets the request it must send to the host pump.
    pub fn start_next(&mut self) -> (r: Option<(usize, Request<V>)>)
        ensures
            (final(self)@, r) == old(self)@.start_next(),
            r is None <==> !old(self)@.has_queued(),
            r matches Some((j, _)) ==> old(self)@.is_first_queued(j as int),
    {
        let mut i: usize = 0;
        while i < self.jobs.len()
            invariant
                self@ == old(self)@,
                i <= self.jobs.len(),
                forall|k: int| 0 <= k < i ==> !(#[trigger] self.jobs@[k].state is Queued),
            decreases self.jobs.len() - i,
        {
            match &self.jobs[i].state {
                JobState::Queued(_) => {
                    proof {
                        lemma_first_queued(self@, i as int);
                    }
                    let closure = self.jobs[i].closure;
                    let prev = replace_job_state(&mut self.jobs, i, JobState::Running);
                    match prev {
                        JobState::Queued(arg) => {
                            return Some((i, Request::ValueToValue { closure, arg }));
                        },
                        _ => {
                            return None;
                        },
                    }
                },
                _ => {},
            }
            i = i + 1;
        }
        None
    }

    /// A pool worker reports what the host pump answered for job `job`, or
    /// the error that stopped it (a panic caught at the worker's boundary is
    /// `WorkerPanicked`). The result is kept; a job that is not running is a
    /// protocol violation.
    pub fn finish(&mut self, job: usize, outcome: Result<Response<V>, BridgeError>) -> (r: Result<(), BridgeError>)
        ensures
            (final(self)@, r) == old(self)@.finish(job as int, outcome),
    {
        if job >= self.jobs.len() {
            return Err(BridgeError::ProtocolViolation);
        }
        match &self.jobs[job].state {
            JobState::Running => {},
            _ => { return Err(BridgeError::ProtocolViolation); },
        }
        let result = match outcome {
            Ok(response) => response.unwrap_value(),
            Err(e) => Err(e),
        };
        replace_job_state(&mut self.jobs, job, JobState::Done(result));
        Ok(())
    }

    /// The kept result of job `job`, once it is done; `None` before that, or
    /// for a handle this pool did not hand out. The pool is left as it was,
    /// so every call returns the same result and nothing runs again.
    pub fn resolve(&self, job: usize) -> (r: Option<&Result<V, BridgeError>>)
        ensures
            r is Some <==> self@.resolved(job as int) is Some,
            r matches Some(x) ==> self@.resolved(job as int) == Some(*x),
    {
        if job >= self.jobs.len() {
            return None;
        }
        match &self.jobs[job].state {
            JobState::Done(result) => Some(result),
            _ => None,
        }
    }
}

/// One step of the pool.
pub enum PoolEvent<V> {
    Submit(ClosureHandle, V),
    StartNext,
    Finish(usize, Result<Response<V>, BridgeError>),
}

impl<V> PoolModel<V> {
    pub open spec fn step(self, event: PoolEvent<V>) -> PoolModel<V> {
        match event {
            PoolEvent::Submit(closure, input) => self.submit(closure, input).0,
            PoolEvent::StartNext => self.start_next().0,
            PoolEvent::Finish(job, outcome) => self.finish(job as int, outcome).0,
        }
    }

    pub open spec fn run(self, events: Seq<PoolEvent<V>>) -> PoolModel<V>
        decreases events.len(),
    {
        if events.len() == 0 {
            self
        } else {
            self.step(events[0]).run(events.drop_first())
        }
    }
}

/// None of `events` finishes job `job`.
pub open spec fn leaves_running<V>(events: Seq<PoolEvent<V>>, job: usize) -> bool {
    forall|i: int| 0 <= i < events.len() ==> !(#[trigger] events[i] matches PoolEvent::Finish(k, _) && k == job)
}

proof fn lemma_step_keeps<V>(p: PoolModel<V>, event: PoolEvent<V>, job: int)
    requires
        0 <= job < p.jobs.len(),
        !(p.jobs[job].state is Queued),
        !(event matches PoolEvent::Finish(k, _) && k == job && p.jobs[job].state is Running),
    ensures
        p.step(event).jobs.len() >= p.jobs.len(),
        p.step(event).jobs[job] == p.jobs[job],
{
    if event is StartNext && p.has_queued() {
        let j = p.first_queued();
        let w = choose|w: int| 0 <= w < p.jobs.len() && #[trigger] p.jobs[w].state is Queued;
        assert(p.jobs[w].state is Queued);
        assert(p.is_first_queued(j)) by {
            lemma_some_first_queued(p, w);
        }
        assert(j != job);
    }
}

proof fn lemma_some_first_queued<V>(p: PoolModel<V>, w: int)
    requires
        0 <= w < p.jobs.len(),
        p.jobs[w].state is Queued,
    ensures
        exists|j: int| p.is_first_queued(j),
    decreases w,
{
    if forall|k: int| 0 <= k < w ==> !(#[trigger] p.jobs[k].state is Queued) {
        assert(p.is_first_queued(w));
    } else {
        let k = choose|k: int| 0 <= k < w && (#[trigger] p.jobs[k].state is Queued);
        lemma_some_first_queued(p, k);
    }
}

/// A finished job keeps its result through every later step of the pool:
/// resolving it again returns the same result, and its closure never runs
/// again.
pub proof fn lemma_done_is_kept<V>(p: PoolModel<V>, events: Seq<PoolEvent<V>>, job: usize)
    requires
        p.resolved(job as int) is Some,
    ensures
        p.run(events).resolved(job as int) == p.resolved(job as int),
    decreases events.len(),
{
    if events.len() > 0 {
        lemma_step_keeps(p, events[0], job as int);
        lemma_done_is_kept(p.step(events[0]), events.drop_first(), job);
    }
}

proof fn lemma_running_kept<V>(p: PoolModel<V>, events: Seq<PoolEvent<V>>, job: usize)
    requires
        0 <= job < p.jobs.len(),
        p.jobs[job as int].state is Running,
        leaves_running(events, job),
    ensures
        job < p.run(events).jobs.len(),
        p.run(events).jobs[job as int] == p.jobs[job as int],
    decreases events.len(),
{
    if events.len() > 0 {
        assert(!(events[0] matches PoolEvent::Finish(k, _) && k == job));
        lemma_step_keeps(p, events[0], job as int);
        let rest = events.drop_first();
        assert forall|i: int| 0 <= i < rest.len() implies !(#[trigger] rest[i] matches PoolEvent::Finish(k, _) && k == job) by {
            assert(rest[i] == events[i + 1]);
        }
        lemma_running_kept(p.step(events[0]), rest, job);
    }
}

/// A background job gives what a direct call of its closure gives: its
/// worker takes the job's request to the host pump, and once the pump's
/// response is reported, resolving the handle yields the closure's value, or
/// the closure's failure, whatever other jobs are submitted, started or
/// finished meanwhile and in whatever order.
pub proof fn lemma_background_matches_direct<V>(
    p: PoolModel<V>,
    job: usize,
    outcome: HostOutcome<V>,
    before: Seq<PoolEvent<V>>,
    after: Seq<PoolEvent<V>>,
)
    requires
        0 <= job < p.jobs.len(),
        p.jobs[job as int].state is Running,
        leaves_running(before, job),
    ensures
        ({
            let p1 = p.run(before);
            let (p2, finished) = p1.finish(job as int, Ok(respond_spec(ReturnKind::Value, outcome)));
            &&& finished is Ok
            &&& p2.run(after).resolved(job as int) == Some(direct_result(outcome))
        }),
{
    lemma_running_kept(p, before, job);
    let p1 = p.run(before);
    let p2 = p1.finish(job as int, Ok(respond_spec(ReturnKind::Value, outcome))).0;
    assert(p2.resolved(job as int) == Some(direct_result(outcome)));
    lemma_done_is_kept(p2, after, job);
}

} // verus!
