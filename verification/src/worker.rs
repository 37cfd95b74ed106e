//! The loop of a single worker, as a state machine.
//!
//! A worker is either waiting for a job, running one, or gone for good. The
//! thread that plays the worker calls [`Worker::poll`] to ask for work and
//! [`Worker::finish`] to report that a job has run; what it must do next is
//! the [`Step`] it gets back.
use crate::queue::{Delivery, JobQueue, QueueView};
use vstd::prelude::*;

verus! {

/// Where a worker is in its loop.
#[derive(Clone, Copy, Debug, PartialEq, Eq, Structural)]
pub enum WorkerState {
    /// Waiting for a job.
    Idle,
    /// Running a job it took from the queue.
    Executing,
    /// Out of the loop, after it saw the queue closed and empty.
    Terminated,
}

/// How the run of a job ended.
#[derive(Clone, Copy, Debug, PartialEq, Eq, Structural)]
pub enum Outcome {
    /// The job ran to its end.
    Completed,
    /// The job broke off with a fault, which the worker's thread caught.
    Faulted,
}

/// What a worker's thread must do after it asked for work.
pub enum Step<T> {
    /// Run this job, then report with `finish`.
    Run(T),
    /// Nothing to do for now: wait until the queue changes, then ask again.
    Wait,
    /// Leave the loop: no job will ever come.
    Exit,
}

/// What a worker is, mathematically.
pub struct WorkerView {
    /// The worker's number, for diagnostics only.
    pub id: nat,
    /// Where the worker is in its loop.
    pub state: WorkerState,
}

impl WorkerState {
    /// The state of a worker that asks a queue for work and is answered with
    /// `delivery`. Only a waiting worker is answered at all.
    pub open spec fn on_delivery<T>(self, delivery: Delivery<T>) -> WorkerState {
        if self is Idle {
            match delivery {
                Delivery::Job(_) => WorkerState::Executing,
                Delivery::Empty => WorkerState::Idle,
                Delivery::Closed => WorkerState::Terminated,
            }
        } else {
            self
        }
    }

    /// The state of a worker after the job it ran has ended, in whatever way.
    /// A worker that ran nothing keeps its state.
    pub open spec fn on_finish(self, outcome: Outcome) -> WorkerState {
        if self is Executing {
            WorkerState::Idle
        } else {
            self
        }
    }
}

/// The step that answers a delivery.
pub open spec fn step_for<T>(delivery: Delivery<T>) -> Step<T> {
    match delivery {
        Delivery::Job(job) => Step::Run(job),
        Delivery::Empty => Step::Wait,
        Delivery::Closed => Step::Exit,
    }
}

impl WorkerView {
    /// The step a poll of `queue` gives this worker: none unless it waits.
    pub open spec fn step<T>(self, queue: QueueView<T>) -> Option<Step<T>> {
        if self.state is Idle {
            Some(step_for(queue.next_delivery()))
        } else {
            None
        }
    }

    /// The worker after a poll of `queue`.
    pub open spec fn polled<T>(self, queue: QueueView<T>) -> WorkerView {
        WorkerView { state: self.state.on_delivery(queue.next_delivery()), ..self }
    }

    /// The queue after this worker polled it: only a waiting worker takes
    /// anything from it.
    pub open spec fn queue_after_poll<T>(self, queue: QueueView<T>) -> QueueView<T> {
        if self.state is Idle {
            queue.receive()
        } else {
            queue
        }
    }

    /// The worker after it reported the end of a job.
    pub open spec fn finished(self, outcome: Outcome) -> WorkerView {
        WorkerView { state: self.state.on_finish(outcome), ..self }
    }
}

/// One worker of a pool: a number and a place in the loop.
#[derive(Clone, Copy, Debug)]
pub struct Worker {
    id: usize,
    state: WorkerState,
}

impl View for Worker {
    type V = WorkerView;

    closed spec fn view(&self) -> WorkerView {
        WorkerView { id: self.id as nat, state: self.state }
    }
}

impl Worker {
    /// A worker with the given number, waiting for its first job.
    pub fn new(id: usize) -> (worker: Worker)
        ensures
            worker@ == (WorkerView { id: id as nat, state: WorkerState::Idle }),
    {
        Worker { id, state: WorkerState::Idle }
    }

    /// The worker's number.
    pub fn id(&self) -> (id: usize)
        ensures
            id == self@.id,
    {
        self.id
    }

    /// Where the worker is in its loop.
    pub fn state(&self) -> (state: WorkerState)
        ensures
            state == self@.state,
    {
        self.state
    }

    /// Asks `queue` for work. A waiting worker takes the oldest job and
    /// starts to run it, or keeps waiting if the queue is empty and open, or
    /// terminates if it is empty and closed. A worker that runs a job, or
    /// has terminated, gets no step and takes nothing from the queue.
    pub fn poll<T>(&mut self, queue: &mut JobQueue<T>) -> (step: Option<Step<T>>)
        ensures
            step == old(self)@.step(old(queue)@),
            final(self)@ == old(self)@.polled(old(queue)@),
            final(queue)@ == old(self)@.queue_after_poll(old(queue)@),
    {
        match self.state {
            WorkerState::Idle => {
                match queue.receive() {
                    Delivery::Job(job) => {
                        self.state = WorkerState::Executing;
                        Some(Step::Run(job))
                    },
                    Delivery::Empty => Some(Step::Wait),
                    Delivery::Closed => {
                        self.state = WorkerState::Terminated;
                        Some(Step::Exit)
                    },
                }
            },
            _ => None,
        }
    }

    /// Reports that the job the worker ran has ended. Whether it completed
    /// or faulted, the worker waits for the next job afterwards: a fault
    /// never takes a worker out of its loop. Returns whether the worker was
    /// running a job at all; if not, nothing changes.
    pub fn finish(&mut self, outcome: Outcome) -> (accepted: bool)
        ensures
            accepted == (old(self)@.state is Executing),
            final(self)@ == old(self)@.finished(outcome),
    {
        match self.state {
            WorkerState::Executing => {
                self.state = WorkerState::Idle;
                true
            },
            _ => false,
        }
    }
}

/// A worker leaves its loop only from waiting, and only when the queue is
/// closed and empty: never while it runs a job, never because a job faulted,
/// and never while jobs still wait.
pub proof fn lemma_terminates_only_on_drained_queue<T>(
    worker: WorkerView,
    queue: QueueView<T>,
    outcome: Outcome,
)
    requires
        !(worker.state is Terminated),
    ensures
        worker.polled(queue).state is Terminated <==> worker.state is Idle && queue.drained(),
        !(worker.finished(outcome).state is Terminated),
        worker.polled(queue).state is Terminated ==> worker.step(queue) == Some(Step::<T>::Exit),
{
}

/// A worker that runs a job is not interrupted: a poll leaves it as it is
/// and takes nothing from the queue, closed or not. Only the report that the
/// job has ended moves it on, and then it waits again, whatever the outcome.
pub proof fn lemma_running_job_is_finished<T>(
    worker: WorkerView,
    queue: QueueView<T>,
    outcome: Outcome,
)
    requires
        worker.state is Executing,
    ensures
        worker.polled(queue) == worker,
        worker.queue_after_poll(queue) == queue,
        worker.step(queue) is None,
        worker.finished(outcome).state is Idle,
        worker.finished(outcome).id == worker.id,
{
}

/// A terminated worker stays terminated.
pub proof fn lemma_terminated_is_final<T>(worker: WorkerView, queue: QueueView<T>, outcome: Outcome)
    requires
        worker.state is Terminated,
    ensures
        worker.polled(queue) == worker,
        worker.finished(outcome) == worker,
        worker.queue_after_poll(queue) == queue,
{
}

} // verus!
