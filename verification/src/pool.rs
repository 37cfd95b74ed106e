//! The worker pool: a fixed set of workers around one shared job queue.
//!
//! [`PoolView`] is the pool as a state machine. Its steps are the ones that
//! happen to a running pool: a job is submitted, a worker asks for work, a
//! worker reports the end of a job, the owner shuts the pool down. Each step
//! is atomic, and any run of a real pool with threads is some sequence of
//! them. What is proved of all sequences is stated at the end of this file.
//!
//! [`WorkerPool`] is the executable pool. It holds the queue and the workers'
//! states, and keeps, as ghost state, the record of which job went where.
use crate::queue::{JobQueue, QueueView, Rejected};
use crate::worker::{Outcome, Step, Worker, WorkerState, WorkerView};
use vstd::prelude::*;

verus! {

/// Why a pool could not be made.
#[derive(Clone, Copy, Debug, PartialEq, Eq, Structural)]
pub enum PoolError {
    /// A pool needs at least one worker.
    ZeroSize,
}

/// What a pool is, mathematically.
///
/// Jobs are told apart by their ticket: the place of a job in the history of
/// submissions, counted from zero. Two jobs that are equal as values still
/// have different tickets.
pub struct PoolView<T> {
    /// The shared queue.
    pub queue: QueueView<T>,
    /// The state of each worker, by the worker's number.
    pub workers: Seq<WorkerState>,
    /// For each worker, the ticket of the job it is running, if any.
    pub holding: Seq<Option<int>>,
    /// The tickets of the jobs whose run has ended, in the order of ending.
    pub finished: Seq<int>,
    /// The tickets of the jobs whose run ended with a fault.
    pub faulted: Set<int>,
}

/// The number of workers in `workers` that are in the given state.
pub open spec fn count_in(workers: Seq<WorkerState>, state: WorkerState) -> nat
    decreases workers.len(),
{
    if workers.len() == 0 {
        0
    } else {
        count_in(workers.drop_last(), state) + if workers.last() == state {
            1nat
        } else {
            0nat
        }
    }
}

impl<T> PoolView<T> {
    /// A new pool of `size` workers: all waiting, nothing submitted.
    pub open spec fn init(size: nat) -> Self {
        PoolView {
            queue: QueueView::empty(),
            workers: Seq::new(size, |i: int| WorkerState::Idle),
            holding: Seq::new(size, |i: int| None),
            finished: Seq::empty(),
            faulted: Set::empty(),
        }
    }

    /// The number of workers.
    pub open spec fn size(self) -> nat {
        self.workers.len()
    }

    /// Every job ever submitted, by ticket.
    pub open spec fn submitted(self) -> Seq<T> {
        self.queue.sent()
    }

    /// The number of jobs handed to workers so far. The tickets below this
    /// number are the ones that have left the queue.
    pub open spec fn dispatched(self) -> int {
        self.queue.delivered.len() as int
    }

    /// Whether the pool still takes jobs: it does until it is shut down.
    pub open spec fn accepting(self) -> bool {
        !self.queue.closed
    }

    /// Whether `worker` is the number of a worker of this pool.
    pub open spec fn has_worker(self, worker: int) -> bool {
        0 <= worker < self.workers.len()
    }

    /// The number of jobs that are running at this moment.
    pub open spec fn running(self) -> nat {
        count_in(self.workers, WorkerState::Executing)
    }

    /// The number of workers that have not left their loop.
    pub open spec fn live(self) -> nat {
        (self.workers.len() - count_in(self.workers, WorkerState::Terminated)) as nat
    }

    /// A bound on the steps that a pool in shutdown can still take: each
    /// waiting job is taken and finished, each running job is finished, and
    /// each live worker leaves.
    pub open spec fn work_left(self) -> nat {
        2 * self.queue.pending.len() + self.running() + self.live()
    }

    /// Whether some worker is running the job with this ticket.
    pub open spec fn holds(self, ticket: int) -> bool {
        exists|i: int| 0 <= i < self.holding.len() && #[trigger] self.holding[i] == Some(ticket)
    }

    /// Whether nothing waits and nothing runs.
    pub open spec fn quiescent(self) -> bool {
        &&& self.queue.pending.len() == 0
        &&& forall|i: int| 0 <= i < self.workers.len() ==> !(#[trigger] self.workers[i] is Executing)
    }

    /// Whether every worker has left its loop. This is what the owner waits
    /// for when it shuts the pool down.
    pub open spec fn terminated(self) -> bool {
        forall|i: int| 0 <= i < self.workers.len() ==> #[trigger] self.workers[i] is Terminated
    }

    /// What holds of every pool that was made by `init` and changed by the
    /// steps below.
    pub open spec fn inv(self) -> bool {
        &&& self.workers.len() >= 1
        &&& self.holding.len() == self.workers.len()
        &&& forall|i: int|
            0 <= i < self.workers.len() ==> (#[trigger] self.workers[i] is Executing
                <==> self.holding[i] is Some)
        &&& forall|i: int|
            0 <= i < self.holding.len() && (#[trigger] self.holding[i]) is Some ==> 0
                <= self.holding[i].unwrap() < self.dispatched()
        &&& forall|i: int, j: int|
            0 <= i < self.holding.len() && 0 <= j < self.holding.len() && i != j && (
            #[trigger] self.holding[i]) is Some ==> self.holding[i] != #[trigger] self.holding[j]
        &&& self.finished.no_duplicates()
        &&& forall|k: int|
            0 <= k < self.finished.len() ==> 0 <= #[trigger] self.finished[k] < self.dispatched()
                && !self.holds(self.finished[k])
        &&& forall|ticket: int|
            0 <= ticket < self.dispatched() ==> #[trigger] self.finished.contains(ticket)
                || self.holds(ticket)
        &&& self.finished.len() + self.running() == self.dispatched()
        &&& forall|ticket: int| #[trigger]
            self.faulted.contains(ticket) ==> self.finished.contains(ticket)
        &&& forall|i: int|
            0 <= i < self.workers.len() && #[trigger] self.workers[i] is Terminated
                ==> self.queue.drained()
    }

    /// The step that a request for work by `worker` is answered with: none
    /// if there is no such worker, or if it does not wait.
    pub open spec fn step(self, worker: int) -> Option<Step<T>> {
        if self.has_worker(worker) {
            (WorkerView { id: worker as nat, state: self.workers[worker] }).step(self.queue)
        } else {
            None
        }
    }

    /// The pool after `job` was submitted: it waits last in line, unless the
    /// pool was shut down, which refuses it.
    pub open spec fn execute(self, job: T) -> Self {
        PoolView { queue: self.queue.send(job), ..self }
    }

    /// The pool after `worker` asked for work. A waiting worker takes the
    /// oldest waiting job and holds its ticket; with nothing waiting it keeps
    /// waiting, or terminates if the pool was shut down. Any other request
    /// changes nothing.
    pub open spec fn dispatch(self, worker: int) -> Self {
        if self.has_worker(worker) && self.workers[worker] is Idle {
            PoolView {
                queue: self.queue.receive(),
                workers: self.workers.update(
                    worker,
                    self.workers[worker].on_delivery(self.queue.next_delivery()),
                ),
                holding: if self.queue.pending.len() > 0 {
                    self.holding.update(worker, Some(self.dispatched()))
                } else {
                    self.holding
                },
                ..self
            }
        } else {
            self
        }
    }

    /// The pool after `worker` reported that its job ended with `outcome`.
    /// The job's ticket goes to the record of finished jobs and the worker
    /// waits again, whatever the outcome. A report from a worker that runs
    /// nothing changes nothing.
    pub open spec fn complete(self, worker: int, outcome: Outcome) -> Self {
        if self.has_worker(worker) && self.workers[worker] is Executing {
            let ticket = self.holding[worker].unwrap();
            PoolView {
                workers: self.workers.update(worker, self.workers[worker].on_finish(outcome)),
                holding: self.holding.update(worker, None),
                finished: self.finished.push(ticket),
                faulted: if outcome is Faulted {
                    self.faulted.insert(ticket)
                } else {
                    self.faulted
                },
                ..self
            }
        } else {
            self
        }
    }

    /// The pool after its owner began to shut it down: the queue is closed,
    /// and everything else is as it was.
    pub open spec fn shutdown(self) -> Self {
        PoolView { queue: self.queue.close(), ..self }
    }
}

/// Changing one worker's state moves one unit of the count from the old
/// state to the new one.
pub proof fn lemma_count_update(
    workers: Seq<WorkerState>,
    i: int,
    state: WorkerState,
    counted: WorkerState,
)
    requires
        0 <= i < workers.len(),
    ensures
        count_in(workers.update(i, state), counted) + (if workers[i] == counted {
            1nat
        } else {
            0nat
        }) == count_in(workers, counted) + (if state == counted {
            1nat
        } else {
            0nat
        }),
    decreases workers.len(),
{
    let updated = workers.update(i, state);
    if i == workers.len() - 1 {
        assert(updated.drop_last() =~= workers.drop_last());
    } else {
        assert(updated.drop_last() =~= workers.drop_last().update(i, state));
        lemma_count_update(workers.drop_last(), i, state, counted);
    }
}

/// No more workers are in a state than there are workers; none is in it
/// exactly when the count is zero, and all are exactly when the count is
/// the number of workers.
pub proof fn lemma_count_bounds(workers: Seq<WorkerState>, counted: WorkerState)
    ensures
        count_in(workers, counted) <= workers.len(),
        count_in(workers, counted) == 0 <==> forall|i: int|
            0 <= i < workers.len() ==> #[trigger] workers[i] != counted,
        count_in(workers, counted) == workers.len() <==> forall|i: int|
            0 <= i < workers.len() ==> #[trigger] workers[i] == counted,
    decreases workers.len(),
{
    if workers.len() > 0 {
        let rest = workers.drop_last();
        let last = workers.len() - 1;
        lemma_count_bounds(rest, counted);
        assert(forall|i: int| 0 <= i < rest.len() ==> rest[i] == workers[i]);
        if count_in(workers, counted) == 0 {
            assert forall|i: int| 0 <= i < workers.len() implies #[trigger] workers[i]
                != counted by {
                if i < last {
                    assert(rest[i] == workers[i]);
                }
            }
        }
        if count_in(workers, counted) == workers.len() {
            assert forall|i: int| 0 <= i < workers.len() implies #[trigger] workers[i]
                == counted by {
                if i < last {
                    assert(rest[i] == workers[i]);
                }
            }
        }
        if forall|i: int| 0 <= i < workers.len() ==> #[trigger] workers[i] != counted {
            assert(workers[last] != counted);
            assert forall|i: int| 0 <= i < rest.len() implies #[trigger] rest[i] != counted by {
                assert(rest[i] == workers[i]);
            }
        }
        if forall|i: int| 0 <= i < workers.len() ==> #[trigger] workers[i] == counted {
            assert(workers[last] == counted);
            assert forall|i: int| 0 <= i < rest.len() implies #[trigger] rest[i] == counted by {
                assert(rest[i] == workers[i]);
            }
        }
    }
}

/// A new pool of at least one worker is in order.
pub proof fn lemma_init_inv<T>(size: nat)
    requires
        size >= 1,
    ensures
        PoolView::<T>::init(size).inv(),
        PoolView::<T>::init(size).size() == size,
        PoolView::<T>::init(size).accepting(),
        PoolView::<T>::init(size).running() == 0,
{
    let pool = PoolView::<T>::init(size);
    lemma_count_bounds(pool.workers, WorkerState::Executing);
}

/// Submitting a job keeps the pool in order.
pub proof fn lemma_execute_inv<T>(pool: PoolView<T>, job: T)
    requires
        pool.inv(),
    ensures
        pool.execute(job).inv(),
{
    let next = pool.execute(job);
    assert forall|k: int| 0 <= k < next.finished.len() implies !next.holds(
        #[trigger] next.finished[k],
    ) by {
        assert(!pool.holds(pool.finished[k]));
    }
    assert forall|ticket: int| 0 <= ticket < next.dispatched() implies #[trigger]
    next.finished.contains(ticket) || next.holds(ticket) by {
        assert(pool.finished.contains(ticket) || pool.holds(ticket));
    }
}

/// Shutting down keeps the pool in order.
pub proof fn lemma_shutdown_inv<T>(pool: PoolView<T>)
    requires
        pool.inv(),
    ensures
        pool.shutdown().inv(),
{
    let next = pool.shutdown();
    assert forall|k: int| 0 <= k < next.finished.len() implies !next.holds(
        #[trigger] next.finished[k],
    ) by {
        assert(!pool.holds(pool.finished[k]));
    }
    assert forall|ticket: int| 0 <= ticket < next.dispatched() implies #[trigger]
    next.finished.contains(ticket) || next.holds(ticket) by {
        assert(pool.finished.contains(ticket) || pool.holds(ticket));
    }
}

/// A request for work keeps the pool in order.
pub proof fn lemma_dispatch_inv<T>(pool: PoolView<T>, worker: int)
    requires
        pool.inv(),
    ensures
        pool.dispatch(worker).inv(),
{
    let next = pool.dispatch(worker);
    if pool.has_worker(worker) && pool.workers[worker] is Idle {
        lemma_count_update(
            pool.workers,
            worker,
            pool.workers[worker].on_delivery(pool.queue.next_delivery()),
            WorkerState::Executing,
        );
        if pool.queue.pending.len() > 0 {
            let ticket = pool.dispatched();
            assert(next.holding[worker] == Some(ticket));
            assert forall|k: int| 0 <= k < next.finished.len() implies !next.holds(
                #[trigger] next.finished[k],
            ) by {
                assert(!pool.holds(pool.finished[k]));
                if next.holds(next.finished[k]) {
                    let i = choose|i: int|
                        0 <= i < next.holding.len() && #[trigger] next.holding[i] == Some(
                            next.finished[k],
                        );
                    assert(i != worker);
                    assert(pool.holding[i] == Some(pool.finished[k]));
                }
            }
            assert forall|t: int| 0 <= t < next.dispatched() implies #[trigger]
            next.finished.contains(t) || next.holds(t) by {
                if t < ticket {
                    assert(pool.finished.contains(t) || pool.holds(t));
                    if pool.holds(t) {
                        let i = choose|i: int|
                            0 <= i < pool.holding.len() && #[trigger] pool.holding[i] == Some(t);
                        assert(i != worker);
                        assert(next.holding[i] == Some(t));
                    }
                }
            }
        } else {
            assert forall|k: int| 0 <= k < next.finished.len() implies !next.holds(
                #[trigger] next.finished[k],
            ) by {
                assert(!pool.holds(pool.finished[k]));
            }
            assert forall|t: int| 0 <= t < next.dispatched() implies #[trigger]
            next.finished.contains(t) || next.holds(t) by {
                assert(pool.finished.contains(t) || pool.holds(t));
            }
        }
    }
}

/// A report that a job has ended keeps the pool in order.
pub proof fn lemma_complete_inv<T>(pool: PoolView<T>, worker: int, outcome: Outcome)
    requires
        pool.inv(),
    ensures
        pool.complete(worker, outcome).inv(),
{
    let next = pool.complete(worker, outcome);
    if pool.has_worker(worker) && pool.workers[worker] is Executing {
        let ticket = pool.holding[worker].unwrap();
        lemma_count_update(pool.workers, worker, WorkerState::Idle, WorkerState::Executing);
        assert(pool.holding[worker] == Some(ticket));
        assert(pool.holds(ticket));
        assert forall|k: int| 0 <= k < pool.finished.len() implies pool.finished[k] != ticket by {
            assert(!pool.holds(pool.finished[k]));
        }
        assert(next.finished.no_duplicates());
        assert forall|k: int| 0 <= k < next.finished.len() implies !next.holds(
            #[trigger] next.finished[k],
        ) by {
            let t = next.finished[k];
            if next.holds(t) {
                let i = choose|i: int|
                    0 <= i < next.holding.len() && #[trigger] next.holding[i] == Some(t);
                assert(i != worker);
                assert(pool.holding[i] == Some(t));
                if k < pool.finished.len() {
                    assert(!pool.holds(pool.finished[k]));
                }
            }
        }
        assert forall|t: int| 0 <= t < next.dispatched() implies #[trigger] next.finished.contains(
            t,
        ) || next.holds(t) by {
            vstd::seq_lib::lemma_seq_contains_after_push(pool.finished, ticket, t);
            assert(pool.finished.contains(t) || pool.holds(t));
            if !pool.finished.contains(t) && t != ticket {
                let i = choose|i: int|
                    0 <= i < pool.holding.len() && #[trigger] pool.holding[i] == Some(t);
                assert(i != worker);
                assert(next.holding[i] == Some(t));
            }
        }
        assert forall|t: int| #[trigger] next.faulted.contains(t) implies next.finished.contains(
            t,
        ) by {
            vstd::seq_lib::lemma_seq_contains_after_push(pool.finished, ticket, t);
        }
    }
}

/// A fixed-size pool of workers and the queue of jobs they share.
///
/// The pool does no work itself and starts no thread. It decides: which job
/// a worker that asks gets, whether a job is still accepted, when every
/// worker has gone. The threads that play the workers call `dispatch` and
/// `complete`; the owner calls `execute` and `shutdown`.
pub struct WorkerPool<T> {
    workers: Vec<Worker>,
    queue: JobQueue<T>,
    holding: Ghost<Seq<Option<int>>>,
    finished: Ghost<Seq<int>>,
    faulted: Ghost<Set<int>>,
}

impl<T> View for WorkerPool<T> {
    type V = PoolView<T>;

    closed spec fn view(&self) -> PoolView<T> {
        PoolView {
            queue: self.queue@,
            workers: Seq::new(self.workers@.len(), |i: int| self.workers@[i]@.state),
            holding: self.holding@,
            finished: self.finished@,
            faulted: self.faulted@,
        }
    }
}

impl<T> WorkerPool<T> {
    /// Whether each worker carries its place in the pool as its number.
    pub closed spec fn numbered(&self) -> bool {
        forall|i: int| 0 <= i < self.workers@.len() ==> (#[trigger] self.workers@[i])@.id == i
    }

    /// Whether the pool is in order. Every pool made by `new` is, and every
    /// method keeps it so.
    pub open spec fn wf(&self) -> bool {
        self@.inv() && self.numbered()
    }

    /// Makes a pool of `size` workers, all waiting for work. A pool of no
    /// workers is refused.
    pub fn new(size: usize) -> (result: Result<WorkerPool<T>, PoolError>)
        ensures
            match result {
                Ok(pool) => size >= 1 && pool.wf() && pool@ == PoolView::<T>::init(size as nat),
                Err(error) => size == 0 && error == PoolError::ZeroSize,
            },
    {
        if size == 0 {
            return Err(PoolError::ZeroSize);
        }
        let mut workers: Vec<Worker> = Vec::new();
        let mut id: usize = 0;
        while id < size
            invariant
                id <= size,
                workers@.len() == id,
                forall|i: int|
                    0 <= i < id ==> (#[trigger] workers@[i])@ == (WorkerView {
                        id: i as nat,
                        state: WorkerState::Idle,
                    }),
            decreases size - id,
        {
            workers.push(Worker::new(id));
            id += 1;
        }
        let pool = WorkerPool {
            workers,
            queue: JobQueue::new(),
            holding: Ghost(Seq::new(size as nat, |i: int| None)),
            finished: Ghost(Seq::empty()),
            faulted: Ghost(Set::empty()),
        };
        proof {
            let init = PoolView::<T>::init(size as nat);
            assert(pool@.workers =~= init.workers);
            assert(pool@.holding =~= init.holding);
            assert(pool@.queue == init.queue);
            lemma_init_inv::<T>(size as nat);
        }
        Ok(pool)
    }

    /// Submits `job`. It is accepted, and waits last in line, exactly when
    /// the pool has not been shut down; a refused job comes back unchanged.
    pub fn execute(&mut self, job: T) -> (result: Result<(), Rejected<T>>)
        requires
            old(self).wf(),
        ensures
            final(self).wf(),
            final(self)@ == old(self)@.execute(job),
            result == if old(self)@.accepting() {
                Ok::<(), Rejected<T>>(())
            } else {
                Err::<(), Rejected<T>>(Rejected { job })
            },
    {
        proof {
            lemma_execute_inv(self@, job);
        }
        self.queue.send(job)
    }

    /// Answers a request for work by the worker with number `worker`. A
    /// waiting worker is told to run the oldest waiting job, or to wait, or,
    /// once the pool is shut down and the queue is empty, to exit. There is
    /// no answer for a worker that runs a job or has exited, nor for a number
    /// that is not a worker's.
    pub fn dispatch(&mut self, worker: usize) -> (step: Option<Step<T>>)
        requires
            old(self).wf(),
        ensures
            final(self).wf(),
            final(self)@ == old(self)@.dispatch(worker as int),
            step == old(self)@.step(worker as int),
    {
        if worker >= self.workers.len() {
            return None;
        }
        proof {
            lemma_dispatch_inv(self@, worker as int);
        }
        let ghost ticket = self@.dispatched();
        let mut polled = self.workers[worker];
        let step = polled.poll(&mut self.queue);
        self.workers.set(worker, polled);
        proof {
            if old(self)@.workers[worker as int] is Idle && old(self)@.queue.pending.len() > 0 {
                self.holding@ = self.holding@.update(worker as int, Some(ticket));
            }
            assert(self@.workers =~= old(self)@.dispatch(worker as int).workers);
        }
        step
    }

    /// Takes the report that the job run by the worker with number `worker`
    /// has ended. The worker waits for the next job afterwards, whether the
    /// job completed or faulted. Returns whether there was such a worker and
    /// it was running a job; if not, nothing changes.
    pub fn complete(&mut self, worker: usize, outcome: Outcome) -> (accepted: bool)
        requires
            old(self).wf(),
        ensures
            final(self).wf(),
            final(self)@ == old(self)@.complete(worker as int, outcome),
            accepted == (old(self)@.has_worker(worker as int) && old(self)@.workers[worker as int]
                is Executing),
    {
        if worker >= self.workers.len() {
            return false;
        }
        proof {
            lemma_complete_inv(self@, worker as int, outcome);
        }
        let mut reporting = self.workers[worker];
        let accepted = reporting.finish(outcome);
        self.workers.set(worker, reporting);
        proof {
            if accepted {
                let ticket = self.holding@[worker as int].unwrap();
                self.holding@ = self.holding@.update(worker as int, None);
                self.finished@ = self.finished@.push(ticket);
                if outcome is Faulted {
                    self.faulted@ = self.faulted@.insert(ticket);
                }
            }
            assert(self@.workers =~= old(self)@.complete(worker as int, outcome).workers);
        }
        accepted
    }

    /// Begins the shutdown: from now on no job is accepted. The jobs that
    /// wait are still handed out, and a job that runs is left to finish; a
    /// worker exits when it asks for work and finds nothing left. The
    /// shutdown is over when `is_terminated` holds. A second call changes
    /// nothing.
    pub fn shutdown(&mut self)
        requires
            old(self).wf(),
        ensures
            final(self).wf(),
            final(self)@ == old(self)@.shutdown(),
    {
        proof {
            lemma_shutdown_inv(self@);
        }
        self.queue.close();
    }

    /// The number of workers.
    pub fn size(&self) -> (size: usize)
        ensures
            size == self@.size(),
    {
        self.workers.len()
    }

    /// The number of jobs that wait for a worker.
    pub fn pending(&self) -> (pending: usize)
        ensures
            pending == self@.queue.pending.len(),
    {
        self.queue.len()
    }

    /// Whether the pool still takes jobs.
    pub fn is_accepting(&self) -> (accepting: bool)
        ensures
            accepting == self@.accepting(),
    {
        !self.queue.is_closed()
    }

    /// The state of the worker with number `worker`, if there is one.
    pub fn worker_state(&self, worker: usize) -> (state: Option<WorkerState>)
        ensures
            state == if self@.has_worker(worker as int) {
                Some(self@.workers[worker as int])
            } else {
                None
            },
    {
        if worker < self.workers.len() {
            Some(self.workers[worker].state())
        } else {
            None
        }
    }

    /// The number of jobs that run at this moment.
    pub fn running(&self) -> (running: usize)
        ensures
            running == self@.running(),
    {
        let mut running: usize = 0;
        let mut i: usize = 0;
        while i < self.workers.len()
            invariant
                i <= self.workers@.len(),
                running == count_in(self@.workers.take(i as int), WorkerState::Executing),
                running <= i,
            decreases self.workers@.len() - i,
        {
            proof {
                let upto = self@.workers.take(i as int + 1);
                assert(upto.drop_last() =~= self@.workers.take(i as int));
                assert(upto.last() == self@.workers[i as int]);
            }
            match self.workers[i].state() {
                WorkerState::Executing => {
                    running += 1;
                },
                _ => {},
            }
            i += 1;
        }
        assert(self@.workers.take(i as int) =~= self@.workers);
        running
    }

    /// Whether every worker has left its loop, which ends a shutdown.
    pub fn is_terminated(&self) -> (terminated: bool)
        ensures
            terminated == self@.terminated(),
    {
        let mut i: usize = 0;
        while i < self.workers.len()
            invariant
                i <= self.workers@.len(),
                forall|k: int| 0 <= k < i ==> #[trigger] self@.workers[k] is Terminated,
            decreases self.workers@.len() - i,
        {
            match self.workers[i].state() {
                WorkerState::Terminated => {},
                _ => {
                    assert(!(self@.workers[i as int] is Terminated));
                    return false;
                },
            }
            i += 1;
        }
        true
    }
}

/// The number of workers is set when the pool is made and never changes: no
/// step adds a worker or takes one away.
pub proof fn lemma_size_is_fixed<T>(pool: PoolView<T>, job: T, worker: int, outcome: Outcome)
    ensures
        pool.execute(job).size() == pool.size(),
        pool.dispatch(worker).size() == pool.size(),
        pool.complete(worker, outcome).size() == pool.size(),
        pool.shutdown().size() == pool.size(),
{
}

/// Never do more jobs run at once than the pool has workers, however many
/// jobs were submitted and however many wait.
pub proof fn lemma_running_at_most_size<T>(pool: PoolView<T>)
    ensures
        pool.running() <= pool.size(),
        pool.live() <= pool.size(),
{
    lemma_count_bounds(pool.workers, WorkerState::Executing);
    lemma_count_bounds(pool.workers, WorkerState::Terminated);
}

/// Every job is run exactly once. No job is run twice: a ticket is finished
/// at most once, and a job that runs has not finished. No job is dropped:
/// each submitted job waits in the queue, is held by a worker, or has
/// finished, and the three counts add up to the number of submissions. So
/// once nothing waits and nothing runs, the finished jobs are the submitted
/// jobs, each once.
pub proof fn lemma_every_job_runs_once<T>(pool: PoolView<T>)
    requires
        pool.inv(),
    ensures
        pool.finished.no_duplicates(),
        forall|ticket: int|
            pool.finished.contains(ticket) ==> 0 <= ticket < pool.dispatched() && !pool.holds(
                ticket,
            ),
        forall|ticket: int| #[trigger] pool.holds(ticket) ==> 0 <= ticket < pool.dispatched(),
        forall|ticket: int|
            0 <= ticket < pool.submitted().len() ==> {
                ||| #[trigger] pool.finished.contains(ticket)
                ||| pool.holds(ticket)
                ||| (pool.dispatched() <= ticket && pool.queue.pending[ticket - pool.dispatched()]
                    == pool.submitted()[ticket])
            },
        pool.finished.len() + pool.running() + pool.queue.pending.len() == pool.submitted().len(),
        pool.quiescent() ==> pool.finished.len() == pool.submitted().len(),
        pool.quiescent() ==> forall|ticket: int|
            0 <= ticket < pool.submitted().len() ==> #[trigger] pool.finished.contains(ticket),
{
    assert forall|ticket: int| pool.finished.contains(ticket) implies 0 <= ticket
        < pool.dispatched() && !pool.holds(ticket) by {
        let k = choose|k: int| 0 <= k < pool.finished.len() && pool.finished[k] == ticket;
        assert(!pool.holds(pool.finished[k]));
    }
    assert forall|ticket: int| #[trigger] pool.holds(ticket) implies 0 <= ticket
        < pool.dispatched() by {
        let i = choose|i: int| 0 <= i < pool.holding.len() && #[trigger] pool.holding[i] == Some(
            ticket,
        );
        assert(pool.holding[i] is Some);
    }
    if pool.quiescent() {
        lemma_count_bounds(pool.workers, WorkerState::Executing);
        assert forall|ticket: int| 0 <= ticket < pool.submitted().len() implies #[trigger]
        pool.finished.contains(ticket) by {
            if pool.holds(ticket) {
                let i = choose|i: int|
                    0 <= i < pool.holding.len() && #[trigger] pool.holding[i] == Some(ticket);
                assert(pool.workers[i] is Executing);
            }
        }
    }
}

/// Jobs are handed to workers in the order of submission. A waiting worker
/// that asks while jobs wait gets the oldest submitted job that no worker
/// got before, and with it the next ticket. Which worker gets it is not
/// fixed: it is the one that asks.
pub proof fn lemma_dispatch_in_submission_order<T>(pool: PoolView<T>, worker: int)
    requires
        pool.inv(),
        pool.has_worker(worker),
        pool.workers[worker] is Idle,
        pool.queue.pending.len() > 0,
    ensures
        pool.step(worker) == Some(Step::Run(pool.submitted()[pool.dispatched()])),
        pool.dispatch(worker).workers[worker] is Executing,
        pool.dispatch(worker).holding[worker] == Some(pool.dispatched()),
        pool.dispatch(worker).dispatched() == pool.dispatched() + 1,
        pool.dispatch(worker).submitted() == pool.submitted(),
        pool.dispatch(worker).finished == pool.finished,
{
    crate::queue::lemma_receive_takes_oldest(pool.queue);
}

/// Jobs may end in any order. Of two workers that each run a job, either
/// may report first, whichever got its job first; the record of finished
/// jobs keeps the order of the reports, and nothing else depends on it.
pub proof fn lemma_completion_order_is_free<T>(
    pool: PoolView<T>,
    one: int,
    other: int,
    outcome: Outcome,
)
    requires
        pool.inv(),
        pool.has_worker(one),
        pool.has_worker(other),
        one != other,
        pool.workers[one] is Executing,
        pool.workers[other] is Executing,
    ensures
        pool.complete(one, outcome).complete(other, outcome).finished == pool.finished.push(
            pool.holding[one].unwrap(),
        ).push(pool.holding[other].unwrap()),
        pool.complete(other, outcome).complete(one, outcome).finished == pool.finished.push(
            pool.holding[other].unwrap(),
        ).push(pool.holding[one].unwrap()),
        pool.complete(one, outcome).complete(other, outcome).workers == pool.complete(
            other,
            outcome,
        ).complete(one, outcome).workers,
        pool.complete(one, outcome).complete(other, outcome).holding == pool.complete(
            other,
            outcome,
        ).complete(one, outcome).holding,
        pool.complete(one, outcome).complete(other, outcome).queue == pool.queue,
{
    let a = pool.complete(one, outcome).complete(other, outcome);
    let b = pool.complete(other, outcome).complete(one, outcome);
    assert(a.workers =~= b.workers);
    assert(a.holding =~= b.holding);
}

/// A pool that was shut down takes no job, and stays shut down whatever
/// happens to it.
pub proof fn lemma_shutdown_refuses_jobs<T>(
    pool: PoolView<T>,
    job: T,
    worker: int,
    outcome: Outcome,
)
    requires
        !pool.accepting(),
    ensures
        !pool.shutdown().accepting(),
        pool.shutdown() == pool,
        pool.execute(job) == pool,
        !pool.dispatch(worker).accepting(),
        !pool.complete(worker, outcome).accepting(),
{
}

/// A shutdown interrupts nothing and loses nothing. It changes no worker's
/// state, so a job that runs is left to finish and its report is taken as
/// before; and the jobs that wait are still handed out, oldest first, to the
/// workers that ask.
pub proof fn lemma_shutdown_spares_work<T>(pool: PoolView<T>, worker: int, outcome: Outcome)
    requires
        pool.inv(),
        pool.has_worker(worker),
    ensures
        !pool.shutdown().accepting(),
        pool.shutdown().workers == pool.workers,
        pool.shutdown().holding == pool.holding,
        pool.shutdown().finished == pool.finished,
        pool.shutdown().queue.pending == pool.queue.pending,
        pool.shutdown().submitted() == pool.submitted(),
        pool.workers[worker] is Executing ==> pool.shutdown().step(worker) is None
            && pool.shutdown().dispatch(worker) == pool.shutdown() && pool.shutdown().complete(
            worker,
            outcome,
        ).workers[worker] is Idle,
        pool.queue.pending.len() > 0 ==> pool.shutdown().step(worker) == pool.step(worker),
        pool.queue.pending.len() > 0 ==> !(pool.shutdown().dispatch(worker).workers[worker]
            is Terminated),
{
}

/// The shutdown is over only when all work is done. Once every worker has
/// left its loop, the pool had been shut down, nothing waits, nothing runs,
/// and every job that was ever submitted has finished, each once.
pub proof fn lemma_terminated_pool_is_done<T>(pool: PoolView<T>)
    requires
        pool.inv(),
        pool.terminated(),
    ensures
        !pool.accepting(),
        pool.quiescent(),
        pool.running() == 0,
        pool.live() == 0,
        pool.work_left() == 0,
        pool.finished.no_duplicates(),
        pool.finished.len() == pool.submitted().len(),
        forall|ticket: int|
            0 <= ticket < pool.submitted().len() ==> #[trigger] pool.finished.contains(ticket),
{
    assert(pool.workers[0] is Terminated);
    assert forall|i: int| 0 <= i < pool.workers.len() implies !(
    #[trigger] pool.workers[i] is Executing) by {
        assert(pool.workers[i] is Terminated);
    }
    lemma_count_bounds(pool.workers, WorkerState::Terminated);
    lemma_count_bounds(pool.workers, WorkerState::Executing);
    lemma_every_job_runs_once(pool);
}

/// A shutdown comes to its end. In a pool that was shut down, every worker
/// that has not left can take a step, and each such step brings the end
/// nearer: a waiting worker takes a job or leaves, a running worker
/// finishes. When no step is left to take, every worker has left.
pub proof fn lemma_shutdown_makes_progress<T>(pool: PoolView<T>, worker: int, outcome: Outcome)
    requires
        pool.inv(),
        !pool.accepting(),
        pool.has_worker(worker),
    ensures
        pool.workers[worker] is Idle ==> pool.dispatch(worker).work_left() < pool.work_left(),
        pool.workers[worker] is Idle ==> pool.step(worker) is Some && pool.step(worker)
            != Some(Step::<T>::Wait),
        pool.workers[worker] is Executing ==> pool.complete(worker, outcome).work_left()
            < pool.work_left(),
        pool.workers[worker] is Terminated ==> pool.dispatch(worker) == pool && pool.complete(
            worker,
            outcome,
        ) == pool,
        pool.work_left() == 0 <==> pool.terminated(),
{
    lemma_count_bounds(pool.workers, WorkerState::Executing);
    lemma_count_bounds(pool.workers, WorkerState::Terminated);
    if pool.workers[worker] is Idle {
        let state = pool.workers[worker].on_delivery(pool.queue.next_delivery());
        lemma_count_update(pool.workers, worker, state, WorkerState::Executing);
        lemma_count_update(pool.workers, worker, state, WorkerState::Terminated);
        lemma_count_bounds(pool.dispatch(worker).workers, WorkerState::Terminated);
    }
    if pool.workers[worker] is Executing {
        lemma_count_update(pool.workers, worker, WorkerState::Idle, WorkerState::Executing);
        lemma_count_update(pool.workers, worker, WorkerState::Idle, WorkerState::Terminated);
        lemma_count_bounds(pool.complete(worker, outcome).workers, WorkerState::Terminated);
    }
    if pool.terminated() {
        lemma_terminated_pool_is_done(pool);
    }
    if pool.work_left() == 0 {
        assert(pool.live() == 0);
        assert(count_in(pool.workers, WorkerState::Terminated) == pool.workers.len());
        assert forall|i: int| 0 <= i < pool.workers.len() implies #[trigger] pool.workers[i]
            is Terminated by {
            assert(pool.workers[i] == WorkerState::Terminated);
        }
    }
}

/// A fault costs the pool no worker. The worker whose job faulted waits for
/// the next job exactly as if the job had completed, no other worker is
/// touched, and the faulted job counts as run. If a job waits, that worker
/// is the next to get one when it asks.
pub proof fn lemma_fault_keeps_capacity<T>(pool: PoolView<T>, worker: int)
    requires
        pool.inv(),
        pool.has_worker(worker),
        pool.workers[worker] is Executing,
    ensures
        pool.complete(worker, Outcome::Faulted).workers[worker] is Idle,
        pool.complete(worker, Outcome::Faulted).workers == pool.complete(
            worker,
            Outcome::Completed,
        ).workers,
        pool.complete(worker, Outcome::Faulted).size() == pool.size(),
        pool.complete(worker, Outcome::Faulted).live() == pool.live(),
        forall|i: int|
            0 <= i < pool.size() && i != worker ==> pool.complete(
                worker,
                Outcome::Faulted,
            ).workers[i] == #[trigger] pool.workers[i],
        pool.complete(worker, Outcome::Faulted).finished == pool.finished.push(
            pool.holding[worker].unwrap(),
        ),
        pool.complete(worker, Outcome::Faulted).faulted.contains(pool.holding[worker].unwrap()),
        pool.queue.pending.len() > 0 ==> pool.complete(worker, Outcome::Faulted).step(worker)
            == Some(Step::Run(pool.queue.pending[0])),
{
    lemma_count_update(pool.workers, worker, WorkerState::Idle, WorkerState::Terminated);
}

/// Workers leave only because the pool was shut down: while the pool takes
/// jobs, all of its workers are in their loops, waiting or running.
pub proof fn lemma_open_pool_keeps_all_workers<T>(pool: PoolView<T>)
    requires
        pool.inv(),
        pool.accepting(),
    ensures
        pool.live() == pool.size(),
        forall|i: int| 0 <= i < pool.size() ==> !(#[trigger] pool.workers[i] is Terminated),
{
    assert forall|i: int| 0 <= i < pool.size() implies #[trigger] pool.workers[i]
        != WorkerState::Terminated by {
        if pool.workers[i] is Terminated {
            assert(pool.queue.drained());
        }
    }
    lemma_count_bounds(pool.workers, WorkerState::Terminated);
}

} // verus!
