use multi_thread_server::queue::JobQueue;
use multi_thread_server::worker::{Outcome, Step, Worker, WorkerState};

#[test]
fn new_worker_waits_and_keeps_its_number() {
    let worker = Worker::new(3);
    assert_eq!(worker.id(), 3);
    assert_eq!(worker.state(), WorkerState::Idle);
}

#[test]
fn waiting_worker_takes_the_oldest_job() {
    let mut queue: JobQueue<u32> = JobQueue::new();
    queue.send(11).unwrap_or(());
    queue.send(22).unwrap_or(());
    let mut worker = Worker::new(0);
    assert!(matches!(worker.poll(&mut queue), Some(Step::Run(11))));
    assert_eq!(worker.state(), WorkerState::Executing);
    assert_eq!(queue.len(), 1);
}

#[test]
fn waiting_worker_keeps_waiting_on_an_open_empty_queue() {
    let mut queue: JobQueue<u32> = JobQueue::new();
    let mut worker = Worker::new(0);
    assert!(matches!(worker.poll(&mut queue), Some(Step::Wait)));
    assert_eq!(worker.state(), WorkerState::Idle);
}

#[test]
fn waiting_worker_exits_on_a_closed_empty_queue() {
    let mut queue: JobQueue<u32> = JobQueue::new();
    queue.close();
    let mut worker = Worker::new(0);
    assert!(matches!(worker.poll(&mut queue), Some(Step::Exit)));
    assert_eq!(worker.state(), WorkerState::Terminated);
}

#[test]
fn worker_drains_a_closed_queue_before_it_exits() {
    let mut queue: JobQueue<u32> = JobQueue::new();
    queue.send(1).unwrap_or(());
    queue.close();
    let mut worker = Worker::new(0);
    assert!(matches!(worker.poll(&mut queue), Some(Step::Run(1))));
    assert!(worker.finish(Outcome::Completed));
    assert!(matches!(worker.poll(&mut queue), Some(Step::Exit)));
    assert_eq!(worker.state(), WorkerState::Terminated);
}

#[test]
fn running_worker_is_not_given_a_second_job() {
    let mut queue: JobQueue<u32> = JobQueue::new();
    queue.send(1).unwrap_or(());
    queue.send(2).unwrap_or(());
    let mut worker = Worker::new(0);
    assert!(matches!(worker.poll(&mut queue), Some(Step::Run(1))));
    assert!(worker.poll(&mut queue).is_none());
    assert_eq!(worker.state(), WorkerState::Executing);
    assert_eq!(queue.len(), 1);
}

#[test]
fn running_worker_is_not_stopped_by_a_close() {
    let mut queue: JobQueue<u32> = JobQueue::new();
    queue.send(1).unwrap_or(());
    let mut worker = Worker::new(0);
    assert!(matches!(worker.poll(&mut queue), Some(Step::Run(1))));
    queue.close();
    assert!(worker.poll(&mut queue).is_none());
    assert_eq!(worker.state(), WorkerState::Executing);
    assert!(worker.finish(Outcome::Completed));
    assert_eq!(worker.state(), WorkerState::Idle);
}

#[test]
fn worker_waits_again_after_a_completed_job() {
    let mut queue: JobQueue<u32> = JobQueue::new();
    queue.send(1).unwrap_or(());
    let mut worker = Worker::new(7);
    assert!(matches!(worker.poll(&mut queue), Some(Step::Run(1))));
    assert!(worker.finish(Outcome::Completed));
    assert_eq!(worker.state(), WorkerState::Idle);
    assert_eq!(worker.id(), 7);
}

#[test]
fn worker_waits_again_after_a_faulted_job() {
    let mut queue: JobQueue<u32> = JobQueue::new();
    queue.send(1).unwrap_or(());
    queue.send(2).unwrap_or(());
    let mut worker = Worker::new(7);
    assert!(matches!(worker.poll(&mut queue), Some(Step::Run(1))));
    assert!(worker.finish(Outcome::Faulted));
    assert_eq!(worker.state(), WorkerState::Idle);
    assert!(matches!(worker.poll(&mut queue), Some(Step::Run(2))));
}

#[test]
fn report_from_a_worker_that_runs_nothing_is_refused() {
    let mut worker = Worker::new(0);
    assert!(!worker.finish(Outcome::Completed));
    assert_eq!(worker.state(), WorkerState::Idle);
}

#[test]
fn terminated_worker_stays_terminated() {
    let mut queue: JobQueue<u32> = JobQueue::new();
    queue.close();
    let mut worker = Worker::new(0);
    assert!(matches!(worker.poll(&mut queue), Some(Step::Exit)));
    assert!(worker.poll(&mut queue).is_none());
    assert!(!worker.finish(Outcome::Faulted));
    assert_eq!(worker.state(), WorkerState::Terminated);
}
