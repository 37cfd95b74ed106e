//! The job queue: a first-in, first-out transport that can be closed.
use std::collections::VecDeque;
use vstd::prelude::*;

verus! {

/// What a queue is, mathematically: the jobs waiting in it, the jobs it has
/// already handed out, and whether it has been closed.
pub struct QueueView<T> {
    /// The jobs that wait for a worker, oldest first.
    pub pending: Seq<T>,
    /// The jobs that were handed to a worker, in the order of the handing.
    pub delivered: Seq<T>,
    /// Whether the producer side has gone.
    pub closed: bool,
}

/// What a worker gets when it asks the queue for work.
pub enum Delivery<T> {
    /// The oldest waiting job, now owned by the asking worker alone.
    Job(T),
    /// Nothing waits, but the queue is open: a job may still come.
    Empty,
    /// Nothing waits and the queue is closed: no job will ever come.
    Closed,
}

/// A job that was refused because the queue had been closed. It carries the
/// job back to the caller, so that a refusal never loses work silently.
pub struct Rejected<T> {
    pub job: T,
}

impl<T> QueueView<T> {
    /// A new queue: open, with no history.
    pub open spec fn empty() -> Self {
        QueueView { pending: Seq::empty(), delivered: Seq::empty(), closed: false }
    }

    /// Every job the queue ever accepted, in the order of acceptance.
    pub open spec fn sent(self) -> Seq<T> {
        self.delivered + self.pending
    }

    /// Whether the queue is closed and nothing waits in it.
    pub open spec fn drained(self) -> bool {
        self.closed && self.pending.len() == 0
    }

    /// The queue after an attempt to send `job`: an open queue puts it last
    /// in line, a closed queue is unchanged.
    pub open spec fn send(self, job: T) -> Self {
        if self.closed {
            self
        } else {
            QueueView { pending: self.pending.push(job), ..self }
        }
    }

    /// What the next call of `receive` hands out.
    pub open spec fn next_delivery(self) -> Delivery<T> {
        if self.pending.len() > 0 {
            Delivery::Job(self.pending[0])
        } else if self.closed {
            Delivery::Closed
        } else {
            Delivery::Empty
        }
    }

    /// The queue after a `receive`: the oldest waiting job, if there is one,
    /// moves from the waiting line to the delivered history.
    pub open spec fn receive(self) -> Self {
        if self.pending.len() > 0 {
            QueueView {
                pending: self.pending.drop_first(),
                delivered: self.delivered.push(self.pending[0]),
                ..self
            }
        } else {
            self
        }
    }

    /// The queue after closing. The waiting jobs stay: they are still handed
    /// out, and only then do workers see the closure.
    pub open spec fn close(self) -> Self {
        QueueView { closed: true, ..self }
    }
}

/// A first-in, first-out queue of jobs with one producer side and any number
/// of consumers, which can be closed once.
pub struct JobQueue<T> {
    pending: VecDeque<T>,
    closed: bool,
    delivered: Ghost<Seq<T>>,
}

impl<T> View for JobQueue<T> {
    type V = QueueView<T>;

    closed spec fn view(&self) -> QueueView<T> {
        QueueView { pending: self.pending@, delivered: self.delivered@, closed: self.closed }
    }
}

impl<T> JobQueue<T> {
    /// An open queue with nothing in it.
    pub fn new() -> (queue: Self)
        ensures
            queue@ == QueueView::<T>::empty(),
    {
        JobQueue { pending: VecDeque::new(), closed: false, delivered: Ghost(Seq::empty()) }
    }

    /// Puts `job` last in line. Fails exactly when the queue is closed, and
    /// then hands the job back and changes nothing.
    pub fn send(&mut self, job: T) -> (result: Result<(), Rejected<T>>)
        ensures
            final(self)@ == old(self)@.send(job),
            result == if old(self)@.closed {
                Err::<(), Rejected<T>>(Rejected { job })
            } else {
                Ok::<(), Rejected<T>>(())
            },
    {
        if self.closed {
            Err(Rejected { job })
        } else {
            self.pending.push_back(job);
            Ok(())
        }
    }

    /// Takes the oldest waiting job, if there is one. With nothing waiting it
    /// says whether more may come (`Empty`) or not (`Closed`). It never
    /// blocks: a worker that gets `Empty` waits and asks again.
    pub fn receive(&mut self) -> (delivery: Delivery<T>)
        ensures
            final(self)@ == old(self)@.receive(),
            delivery == old(self)@.next_delivery(),
    {
        match self.pending.pop_front() {
            Some(job) => {
                proof {
                    self.delivered@ = self.delivered@.push(job);
                }
                assert(self.pending@ =~= old(self).pending@.drop_first());
                Delivery::Job(job)
            },
            None => {
                if self.closed {
                    Delivery::Closed
                } else {
                    Delivery::Empty
                }
            },
        }
    }

    /// Closes the queue. Closing a closed queue changes nothing.
    pub fn close(&mut self)
        ensures
            final(self)@ == old(self)@.close(),
    {
        self.closed = true;
    }

    /// The number of waiting jobs.
    pub fn len(&self) -> (n: usize)
        ensures
            n == self@.pending.len(),
    {
        self.pending.len()
    }

    /// Whether no job waits.
    pub fn is_empty(&self) -> (b: bool)
        ensures
            b == (self@.pending.len() == 0),
    {
        self.pending.len() == 0
    }

    /// Whether the queue has been closed.
    pub fn is_closed(&self) -> (b: bool)
        ensures
            b == self@.closed,
    {
        self.closed
    }
}

/// Jobs leave the queue in the order in which they entered it: the jobs
/// handed out so far are the front part of the jobs ever accepted, so the
/// n-th delivery is the n-th job sent.
pub proof fn lemma_delivered_in_order<T>(queue: QueueView<T>)
    ensures
        queue.delivered.is_prefix_of(queue.sent()),
        queue.delivered == queue.sent().take(queue.delivered.len() as int),
        queue.pending == queue.sent().skip(queue.delivered.len() as int),
        forall|n: int| 0 <= n < queue.delivered.len() ==> queue.delivered[n] == queue.sent()[n],
{
    let sent = queue.sent();
    let n = queue.delivered.len() as int;
    assert(sent.take(n) =~= queue.delivered);
    assert(sent.skip(n) =~= queue.pending);
}

/// An open queue accepts every job and puts it last in its history; what was
/// delivered before is untouched. A closed queue accepts nothing.
pub proof fn lemma_send_appends<T>(queue: QueueView<T>, job: T)
    ensures
        queue.send(job).delivered == queue.delivered,
        queue.send(job).closed == queue.closed,
        !queue.closed ==> queue.send(job).sent() == queue.sent().push(job),
        queue.closed ==> queue.send(job) == queue,
{
    if !queue.closed {
        assert(queue.send(job).sent() =~= queue.sent().push(job));
    }
}

/// A receive hands out the oldest job that was sent and not yet delivered,
/// and hands it out once: afterwards it is part of the delivered history and
/// waits no longer. Nothing is ever added to or taken from the history of
/// sends by a receive.
pub proof fn lemma_receive_takes_oldest<T>(queue: QueueView<T>)
    ensures
        queue.receive().sent() == queue.sent(),
        queue.receive().closed == queue.closed,
        queue.pending.len() > 0 ==> {
            &&& queue.next_delivery() == Delivery::Job(queue.sent()[queue.delivered.len() as int])
            &&& queue.receive().delivered == queue.delivered.push(
                queue.sent()[queue.delivered.len() as int],
            )
            &&& queue.receive().pending.len() == queue.pending.len() - 1
        },
        queue.pending.len() == 0 ==> {
            &&& queue.receive() == queue
            &&& !(queue.next_delivery() is Job)
            &&& queue.next_delivery() is Closed <==> queue.closed
        },
{
    if queue.pending.len() > 0 {
        assert(queue.receive().sent() =~= queue.sent());
    }
}

/// Closing loses nothing and happens once: the waiting jobs and both
/// histories stay as they were, a second close changes nothing, and no later
/// send or receive opens the queue again.
pub proof fn lemma_close_is_final<T>(queue: QueueView<T>, job: T)
    ensures
        queue.close().closed,
        queue.close().pending == queue.pending,
        queue.close().delivered == queue.delivered,
        queue.close().close() == queue.close(),
        queue.close().send(job) == queue.close(),
        queue.close().receive().closed,
{
}

/// A drained queue stays drained: whatever is tried on it, it keeps its
/// state, and every worker that asks is told that it is closed.
pub proof fn lemma_drained_is_stable<T>(queue: QueueView<T>, job: T)
    requires
        queue.drained(),
    ensures
        queue.send(job) == queue,
        queue.receive() == queue,
        queue.close() == queue,
        queue.next_delivery() == Delivery::<T>::Closed,
{
}

} // verus!
