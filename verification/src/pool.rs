//! The bounded worker-pool model.
//!
//! A pool owns a fixed set of workers and one shared first-in first-out
//! job queue.  Jobs are u64 identifiers; running them is the embedder's
//! business.  The pool hands every accepted job out exactly once, in
//! submission order, and a worker terminates exactly when it observes
//! that the pool is closed and the queue is empty.

use vstd::prelude::*;

verus! {

/// The lifecycle of one worker.
#[derive(PartialEq, Eq, Structural, Clone, Copy, Debug)]
pub enum WorkerState {
    WaitingForJob,
    ExecutingJob,
    Terminated,
}

/// What a poll of the queue tells an idle worker to do.
#[derive(PartialEq, Eq, Structural, Clone, Copy, Debug)]
pub enum PollOutcome {
    Run(u64),
    Wait,
    Exit,
}

/// The error returned when a job is submitted after shutdown.
#[derive(PartialEq, Eq, Structural, Clone, Copy, Debug)]
pub enum SubmitError {
    PoolClosed,
}

/// A ghost snapshot of a pool: the waiting jobs, the open flag, and the
/// state of each worker.
pub struct PoolModel {
    pub pending: Seq<u64>,
    pub open: bool,
    pub workers: Seq<WorkerState>,
}

/// One externally observable pool event; the integer names a worker.
pub enum PoolEvent {
    Submit(u64),
    Poll(int),
    Complete(int),
    Shutdown,
}

/// The transition one event makes on a pool snapshot.  A submission is
/// accepted only while the pool is open; a poll by an idle worker takes
/// the oldest job, waits if the queue is empty but open, and terminates
/// the worker if the queue is empty and closed.
pub open spec fn step(m: PoolModel, e: PoolEvent) -> PoolModel {
    match e {
        PoolEvent::Submit(j) => {
            if m.open {
                PoolModel { pending: m.pending.push(j), open: m.open, workers: m.workers }
            } else {
                m
            }
        },
        PoolEvent::Poll(w) => {
            if 0 <= w < m.workers.len() && m.workers[w] is WaitingForJob {
                if m.pending.len() > 0 {
                    PoolModel {
                        pending: m.pending.drop_first(),
                        open: m.open,
                        workers: m.workers.update(w, WorkerState::ExecutingJob),
                    }
                } else if m.open {
                    m
                } else {
                    PoolModel {
                        pending: m.pending,
                        open: m.open,
                        workers: m.workers.update(w, WorkerState::Terminated),
                    }
                }
            } else {
                m
            }
        },
        PoolEvent::Complete(w) => {
            if 0 <= w < m.workers.len() && m.workers[w] is ExecutingJob {
                PoolModel {
                    pending: m.pending,
                    open: m.open,
                    workers: m.workers.update(w, WorkerState::WaitingForJob),
                }
            } else {
                m
            }
        },
        PoolEvent::Shutdown => {
            PoolModel { pending: m.pending, open: false, workers: m.workers }
        },
    }
}

/// The snapshot after a whole sequence of events.
pub open spec fn run_events(m: PoolModel, es: Seq<PoolEvent>) -> PoolModel
    decreases es.len(),
{
    if es.len() == 0 {
        m
    } else {
        run_events(step(m, es[0]), es.drop_first())
    }
}

/// The job one event enqueues, if any.
pub open spec fn event_accepts(m: PoolModel, e: PoolEvent) -> Seq<u64> {
    match e {
        PoolEvent::Submit(j) => if m.open {
            seq![j]
        } else {
            Seq::empty()
        },
        _ => Seq::empty(),
    }
}

/// The job one event hands to a worker, if any.
pub open spec fn event_dispatches(m: PoolModel, e: PoolEvent) -> Seq<u64> {
    match e {
        PoolEvent::Poll(w) => if 0 <= w < m.workers.len() && m.workers[w] is WaitingForJob
            && m.pending.len() > 0 {
            seq![m.pending[0]]
        } else {
            Seq::empty()
        },
        _ => Seq::empty(),
    }
}

/// All jobs a trace of events enqueues, in order.
pub open spec fn accepted(m: PoolModel, es: Seq<PoolEvent>) -> Seq<u64>
    decreases es.len(),
{
    if es.len() == 0 {
        Seq::empty()
    } else {
        event_accepts(m, es[0]) + accepted(step(m, es[0]), es.drop_first())
    }
}

/// All jobs a trace of events hands to workers, in order.
pub open spec fn dispatched(m: PoolModel, es: Seq<PoolEvent>) -> Seq<u64>
    decreases es.len(),
{
    if es.len() == 0 {
        Seq::empty()
    } else {
        event_dispatches(m, es[0]) + dispatched(step(m, es[0]), es.drop_first())
    }
}

/// Job conservation: over any trace of events, the jobs handed to workers
/// followed by the jobs still pending are exactly the initial backlog
/// followed by the jobs accepted — so every accepted job is handed out at
/// most once, none is lost or duplicated, and hand-out order is
/// submission order.
pub proof fn lemma_pool_conservation(m: PoolModel, es: Seq<PoolEvent>)
    ensures
        dispatched(m, es) + run_events(m, es).pending == m.pending + accepted(m, es),
    decreases es.len(),
{
    if es.len() == 0 {
        assert(Seq::<u64>::empty() + m.pending =~= m.pending);
        assert(m.pending + Seq::<u64>::empty() =~= m.pending);
    } else {
        let e = es[0];
        let m1 = step(m, e);
        let rest = es.drop_first();
        lemma_pool_conservation(m1, rest);
        let d1 = dispatched(m1, rest);
        let a1 = accepted(m1, rest);
        let fin = run_events(m, es).pending;
        assert(run_events(m, es) == run_events(m1, rest));
        match e {
            PoolEvent::Submit(j) => {
                if m.open {
                    assert(m1.pending =~= m.pending + seq![j]);
                    assert(dispatched(m, es) =~= d1);
                    assert(accepted(m, es) =~= seq![j] + a1);
                    assert(d1 + fin == (m.pending + seq![j]) + a1);
                    assert((m.pending + seq![j]) + a1 =~= m.pending + (seq![j] + a1));
                } else {
                    assert(dispatched(m, es) =~= d1);
                    assert(accepted(m, es) =~= a1);
                }
            },
            PoolEvent::Poll(w) => {
                if 0 <= w < m.workers.len() && m.workers[w] is WaitingForJob && m.pending.len()
                    > 0 {
                    assert(dispatched(m, es) =~= seq![m.pending[0]] + d1);
                    assert(accepted(m, es) =~= a1);
                    assert(m.pending =~= seq![m.pending[0]] + m1.pending);
                    assert((seq![m.pending[0]] + d1) + fin =~= seq![m.pending[0]] + (d1 + fin));
                    assert(seq![m.pending[0]] + (m1.pending + a1) =~= (seq![m.pending[0]]
                        + m1.pending) + a1);
                } else {
                    assert(dispatched(m, es) =~= d1);
                    assert(accepted(m, es) =~= a1);
                }
            },
            PoolEvent::Complete(_) => {
                assert(dispatched(m, es) =~= d1);
                assert(accepted(m, es) =~= a1);
            },
            PoolEvent::Shutdown => {
                assert(dispatched(m, es) =~= d1);
                assert(accepted(m, es) =~= a1);
            },
        }
    }
}

/// Shutdown is one-directional: a closed pool never reopens, whatever
/// events follow.
pub proof fn lemma_closed_stays_closed(m: PoolModel, es: Seq<PoolEvent>)
    requires
        !m.open,
    ensures
        !run_events(m, es).open,
    decreases es.len(),
{
    if es.len() > 0 {
        lemma_closed_stays_closed(step(m, es[0]), es.drop_first());
    }
}

/// A terminated worker stays terminated, whatever events follow.
pub proof fn lemma_terminated_stays_terminated(m: PoolModel, es: Seq<PoolEvent>, w: int)
    requires
        0 <= w < m.workers.len(),
        m.workers[w] is Terminated,
    ensures
        run_events(m, es).workers.len() == m.workers.len(),
        run_events(m, es).workers[w] is Terminated,
    decreases es.len(),
{
    if es.len() > 0 {
        lemma_terminated_stays_terminated(step(m, es[0]), es.drop_first(), w);
    }
}

/// A fixed pool of workers around one shared first-in first-out job
/// queue.  This is the pool's decision logic; an embedder runs one real
/// thread per worker, polls on its behalf, and joins the threads that
/// have exited.
pub struct ThreadPool {
    queue: Vec<u64>,
    open: bool,
    workers: Vec<WorkerState>,
}

impl ThreadPool {
    /// The jobs waiting in the queue, oldest first.
    pub closed spec fn pending(self) -> Seq<u64> {
        self.queue@
    }

    /// Whether the pool still accepts jobs.
    pub closed spec fn is_open(self) -> bool {
        self.open
    }

    /// The state of each worker.
    pub closed spec fn worker_states(self) -> Seq<WorkerState> {
        self.workers@
    }

    /// The ghost snapshot of this pool.
    pub closed spec fn abs(self) -> PoolModel {
        PoolModel { pending: self.queue@, open: self.open, workers: self.workers@ }
    }

    /// Creates a pool of the given size: an empty open queue and `size`
    /// idle workers.
    pub fn new(size: usize) -> (p: ThreadPool)
        ensures
            p.pending() == Seq::<u64>::empty(),
            p.is_open(),
            p.worker_states().len() == size,
            forall|w: int| 0 <= w < size ==> p.worker_states()[w] is WaitingForJob,
    {
        let mut workers: Vec<WorkerState> = Vec::new();
        let mut i: usize = 0;
        while i < size
            invariant
                i <= size,
                workers@.len() == i,
                forall|w: int| 0 <= w < i ==> workers@[w] is WaitingForJob,
            decreases size - i,
        {
            workers.push(WorkerState::WaitingForJob);
            i = i + 1;
        }
        ThreadPool { queue: Vec::new(), open: true, workers }
    }

    /// Enqueues a job for execution by some worker.  Succeeds exactly
    /// while the pool is open; after `shutdown` the job is rejected and
    /// nothing changes.
    pub fn execute(&mut self, job: u64) -> (r: Result<(), SubmitError>)
        ensures
            final(self).abs() == step(old(self).abs(), PoolEvent::Submit(job)),
            r is Ok <==> old(self).is_open(),
            old(self).is_open() ==> final(self).pending() == old(self).pending().push(job),
            !old(self).is_open() ==> r == Result::<(), SubmitError>::Err(SubmitError::PoolClosed)
                && final(self).pending() == old(self).pending(),
            final(self).is_open() == old(self).is_open(),
            final(self).worker_states() == old(self).worker_states(),
    {
        if self.open {
            self.queue.push(job);
            Ok(())
        } else {
            Err(SubmitError::PoolClosed)
        }
    }

    /// Polls the queue on behalf of idle worker `w`: hands out the oldest
    /// job if there is one, tells the worker to wait if the queue is empty
    /// but open, and terminates the worker if the queue is empty and
    /// closed.
    pub fn poll(&mut self, w: usize) -> (r: PollOutcome)
        requires
            w < old(self).worker_states().len(),
            old(self).worker_states()[w as int] is WaitingForJob,
        ensures
            final(self).abs() == step(old(self).abs(), PoolEvent::Poll(w as int)),
            old(self).pending().len() > 0 ==> r == PollOutcome::Run(old(self).pending()[0])
                && final(self).pending() == old(self).pending().drop_first()
                && final(self).worker_states()[w as int] is ExecutingJob,
            old(self).pending().len() == 0 && old(self).is_open() ==> r == PollOutcome::Wait
                && final(self).abs() == old(self).abs(),
            old(self).pending().len() == 0 && !old(self).is_open() ==> r == PollOutcome::Exit
                && final(self).worker_states()[w as int] is Terminated,
    {
        if self.queue.len() > 0 {
            let job = self.queue.remove(0);
            let _ = self.workers.remove(w);
            self.workers.insert(w, WorkerState::ExecutingJob);
            proof {
                assert(old(self).queue@.remove(0) =~= old(self).queue@.drop_first());
                assert(old(self).workers@.remove(w as int).insert(
                    w as int,
                    WorkerState::ExecutingJob,
                ) =~= old(self).workers@.update(w as int, WorkerState::ExecutingJob));
            }
            PollOutcome::Run(job)
        } else if self.open {
            PollOutcome::Wait
        } else {
            let _ = self.workers.remove(w);
            self.workers.insert(w, WorkerState::Terminated);
            proof {
                assert(old(self).workers@.remove(w as int).insert(w as int, WorkerState::Terminated)
                    =~= old(self).workers@.update(w as int, WorkerState::Terminated));
            }
            PollOutcome::Exit
        }
    }

    /// Records that worker `w` finished the job it was executing and is
    /// idle again.
    pub fn complete(&mut self, w: usize)
        requires
            w < old(self).worker_states().len(),
            old(self).worker_states()[w as int] is ExecutingJob,
        ensures
            final(self).abs() == step(old(self).abs(), PoolEvent::Complete(w as int)),
            final(self).worker_states()[w as int] is WaitingForJob,
            final(self).pending() == old(self).pending(),
            final(self).is_open() == old(self).is_open(),
    {
        let _ = self.workers.remove(w);
        self.workers.insert(w, WorkerState::WaitingForJob);
        proof {
            assert(old(self).workers@.remove(w as int).insert(w as int, WorkerState::WaitingForJob)
                =~= old(self).workers@.update(w as int, WorkerState::WaitingForJob));
        }
    }

    /// Stops accepting new jobs.  Workers drain the remaining queue and
    /// then exit; the embedder joins each worker's thread once it has
    /// exited.
    pub fn shutdown(&mut self)
        ensures
            final(self).abs() == step(old(self).abs(), PoolEvent::Shutdown),
            !final(self).is_open(),
            final(self).pending() == old(self).pending(),
            final(self).worker_states() == old(self).worker_states(),
    {
        self.open = false;
    }

    /// Whether every worker has terminated.
    pub fn all_terminated(&self) -> (r: bool)
        ensures
            r == forall|w: int|
                0 <= w < self.worker_states().len() ==> self.worker_states()[w] is Terminated,
    {
        let mut i: usize = 0;
        while i < self.workers.len()
            invariant
                i <= self.workers.len(),
                forall|w: int| 0 <= w < i ==> self.workers@[w] is Terminated,
            decreases self.workers.len() - i,
        {
            if !matches!(self.workers[i], WorkerState::Terminated) {
                return false;
            }
            i = i + 1;
        }
        true
    }
}

} // verus!
