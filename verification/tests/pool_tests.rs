use multi_thread_server::pool::{PoolError, WorkerPool};
use multi_thread_server::worker::{Outcome, Step, WorkerState};

fn pool_of(size: usize) -> WorkerPool<u32> {
    match WorkerPool::new(size) {
        Ok(pool) => pool,
        Err(error) => panic!("a pool of {} workers was refused: {:?}", size, error),
    }
}

fn take(pool: &mut WorkerPool<u32>, worker: usize) -> u32 {
    match pool.dispatch(worker) {
        Some(Step::Run(job)) => job,
        Some(Step::Wait) => panic!("worker {} was told to wait", worker),
        Some(Step::Exit) => panic!("worker {} was told to exit", worker),
        None => panic!("worker {} got no answer", worker),
    }
}

#[test]
fn pool_of_no_workers_is_refused() {
    let result: Result<WorkerPool<u32>, PoolError> = WorkerPool::new(0);
    assert!(matches!(result, Err(PoolError::ZeroSize)));
}

#[test]
fn new_pool_has_the_requested_workers_all_waiting() {
    for size in 1..=8usize {
        let pool = pool_of(size);
        assert_eq!(pool.size(), size);
        assert_eq!(pool.running(), 0);
        assert_eq!(pool.pending(), 0);
        assert!(pool.is_accepting());
        assert!(!pool.is_terminated());
        for worker in 0..size {
            assert_eq!(pool.worker_state(worker), Some(WorkerState::Idle));
        }
        assert_eq!(pool.worker_state(size), None);
    }
}

#[test]
fn never_more_jobs_run_than_there_are_workers() {
    let mut pool = pool_of(3);
    for job in 0..10u32 {
        assert!(pool.execute(job).is_ok());
    }
    assert_eq!(pool.pending(), 10);
    assert_eq!(take(&mut pool, 0), 0);
    assert_eq!(take(&mut pool, 1), 1);
    assert_eq!(take(&mut pool, 2), 2);
    assert_eq!(pool.running(), 3);
    assert_eq!(pool.pending(), 7);
    // Every worker is busy: whoever asks again gets nothing.
    for worker in 0..3 {
        assert!(pool.dispatch(worker).is_none());
    }
    assert!(pool.dispatch(3).is_none());
    assert_eq!(pool.running(), 3);
    assert_eq!(pool.pending(), 7);
    assert_eq!(pool.size(), 3);
}

#[test]
fn every_job_runs_exactly_once() {
    let mut pool = pool_of(4);
    for job in 0..50u32 {
        assert!(pool.execute(job).is_ok());
    }
    let mut runs = vec![0u32; 50];
    let mut turn = 0usize;
    while pool.pending() > 0 || pool.running() > 0 {
        let worker = turn % 4;
        turn += 1;
        match pool.dispatch(worker) {
            Some(Step::Run(job)) => runs[job as usize] += 1,
            Some(Step::Wait) => {}
            Some(Step::Exit) => panic!("an open pool sent a worker away"),
            None => assert!(pool.complete(worker, Outcome::Completed)),
        }
    }
    assert!(runs.iter().all(|&count| count == 1));
    assert_eq!(pool.running(), 0);
    assert_eq!(pool.pending(), 0);
}

#[test]
fn jobs_are_delivered_in_order_and_may_finish_out_of_order() {
    let mut pool: WorkerPool<&str> = match WorkerPool::new(2) {
        Ok(pool) => pool,
        Err(_) => panic!("a pool of two workers was refused"),
    };
    assert!(pool.execute("slow").is_ok());
    assert!(pool.execute("fast one").is_ok());
    assert!(pool.execute("fast two").is_ok());
    let mut delivered = Vec::new();
    let mut finished = Vec::new();

    let mut run = |pool: &mut WorkerPool<&'static str>, worker: usize| match pool.dispatch(worker) {
        Some(Step::Run(job)) => job,
        _ => panic!("worker {} got no job", worker),
    };
    let slow = run(&mut pool, 0);
    delivered.push(slow);
    let first = run(&mut pool, 1);
    delivered.push(first);
    assert!(pool.complete(1, Outcome::Completed));
    finished.push(first);
    let second = run(&mut pool, 1);
    delivered.push(second);
    assert!(pool.complete(1, Outcome::Completed));
    finished.push(second);
    assert!(pool.complete(0, Outcome::Completed));
    finished.push(slow);

    assert_eq!(delivered, vec!["slow", "fast one", "fast two"]);
    assert_eq!(finished, vec!["fast one", "fast two", "slow"]);
}

#[test]
fn any_waiting_worker_may_take_the_next_job() {
    let mut pool = pool_of(3);
    assert!(pool.execute(1).is_ok());
    assert!(pool.execute(2).is_ok());
    assert_eq!(take(&mut pool, 2), 1);
    assert_eq!(take(&mut pool, 0), 2);
    assert_eq!(pool.worker_state(0), Some(WorkerState::Executing));
    assert_eq!(pool.worker_state(1), Some(WorkerState::Idle));
    assert_eq!(pool.worker_state(2), Some(WorkerState::Executing));
}

#[test]
fn waiting_worker_is_told_to_wait_while_the_pool_is_open() {
    let mut pool = pool_of(2);
    assert!(matches!(pool.dispatch(0), Some(Step::Wait)));
    assert_eq!(pool.worker_state(0), Some(WorkerState::Idle));
    assert!(pool.execute(5).is_ok());
    assert_eq!(take(&mut pool, 0), 5);
}

#[test]
fn shutdown_is_over_only_when_running_jobs_have_finished() {
    let mut pool = pool_of(2);
    assert!(pool.execute(200).is_ok());
    assert_eq!(take(&mut pool, 0), 200);
    pool.shutdown();
    assert!(!pool.is_accepting());
    // The idle worker sees the closure and leaves; the busy one is untouched.
    assert!(matches!(pool.dispatch(1), Some(Step::Exit)));
    assert!(pool.dispatch(0).is_none());
    assert_eq!(pool.worker_state(0), Some(WorkerState::Executing));
    assert_eq!(pool.running(), 1);
    assert!(!pool.is_terminated());
    // Only after the job has ended can the last worker leave.
    assert!(pool.complete(0, Outcome::Completed));
    assert!(!pool.is_terminated());
    assert!(matches!(pool.dispatch(0), Some(Step::Exit)));
    assert!(pool.is_terminated());
    assert_eq!(pool.running(), 0);
}

#[test]
fn jobs_waiting_at_shutdown_are_still_run() {
    let mut pool = pool_of(1);
    assert!(pool.execute(1).is_ok());
    assert!(pool.execute(2).is_ok());
    assert!(pool.execute(3).is_ok());
    pool.shutdown();
    let mut ran = Vec::new();
    loop {
        match pool.dispatch(0) {
            Some(Step::Run(job)) => {
                ran.push(job);
                assert!(pool.complete(0, Outcome::Completed));
            }
            Some(Step::Exit) => break,
            Some(Step::Wait) => panic!("a pool in shutdown told a worker to wait"),
            None => panic!("the worker got no answer"),
        }
    }
    assert_eq!(ran, vec![1, 2, 3]);
    assert!(pool.is_terminated());
    assert_eq!(pool.pending(), 0);
}

#[test]
fn pool_in_shutdown_refuses_jobs_and_hands_them_back() {
    let mut pool: WorkerPool<String> = match WorkerPool::new(2) {
        Ok(pool) => pool,
        Err(_) => panic!("a pool of two workers was refused"),
    };
    pool.shutdown();
    match pool.execute(String::from("late")) {
        Ok(()) => panic!("a pool in shutdown took a job"),
        Err(rejected) => assert_eq!(rejected.job, "late"),
    }
    assert_eq!(pool.pending(), 0);
}

#[test]
fn second_shutdown_changes_nothing() {
    let mut pool = pool_of(2);
    assert!(pool.execute(1).is_ok());
    pool.shutdown();
    pool.shutdown();
    assert!(!pool.is_accepting());
    assert_eq!(pool.pending(), 1);
    assert_eq!(pool.size(), 2);
    assert_eq!(take(&mut pool, 0), 1);
}

#[test]
fn faulting_job_costs_no_worker() {
    let size = 4usize;
    let mut pool = pool_of(size);
    assert!(pool.execute(666).is_ok());
    assert_eq!(take(&mut pool, 0), 666);
    assert!(pool.complete(0, Outcome::Faulted));
    assert_eq!(pool.worker_state(0), Some(WorkerState::Idle));
    assert_eq!(pool.size(), size);

    for job in 0..size as u32 {
        assert!(pool.execute(job).is_ok());
    }
    let mut took = Vec::new();
    for worker in 0..size {
        took.push((worker, take(&mut pool, worker)));
    }
    assert_eq!(took, vec![(0, 0), (1, 1), (2, 2), (3, 3)]);
    assert_eq!(pool.running(), size);
    assert!(!pool.is_terminated());
}

#[test]
fn faulted_and_completed_jobs_leave_the_worker_alike() {
    let mut faulting = pool_of(1);
    let mut completing = pool_of(1);
    for pool in [&mut faulting, &mut completing] {
        assert!(pool.execute(1).is_ok());
        assert!(pool.execute(2).is_ok());
        assert_eq!(take(pool, 0), 1);
    }
    assert!(faulting.complete(0, Outcome::Faulted));
    assert!(completing.complete(0, Outcome::Completed));
    assert_eq!(faulting.worker_state(0), completing.worker_state(0));
    assert_eq!(take(&mut faulting, 0), 2);
    assert_eq!(take(&mut completing, 0), 2);
}

#[test]
fn report_without_a_running_job_is_refused() {
    let mut pool = pool_of(2);
    assert!(!pool.complete(0, Outcome::Completed));
    assert!(!pool.complete(2, Outcome::Completed));
    assert!(pool.execute(1).is_ok());
    assert_eq!(take(&mut pool, 1), 1);
    assert!(!pool.complete(0, Outcome::Faulted));
    assert!(pool.complete(1, Outcome::Faulted));
    assert!(!pool.complete(1, Outcome::Faulted));
    assert_eq!(pool.running(), 0);
}

#[test]
fn no_worker_leaves_an_open_pool() {
    let mut pool = pool_of(3);
    for round in 0..5u32 {
        for worker in 0..3 {
            assert!(matches!(pool.dispatch(worker), Some(Step::Wait)));
        }
        assert!(pool.execute(round).is_ok());
        assert_eq!(take(&mut pool, (round % 3) as usize), round);
        assert!(pool.complete((round % 3) as usize, Outcome::Faulted));
    }
    for worker in 0..3 {
        assert_eq!(pool.worker_state(worker), Some(WorkerState::Idle));
    }
    assert!(!pool.is_terminated());
}

#[test]
fn terminated_pool_answers_no_one() {
    let mut pool = pool_of(2);
    pool.shutdown();
    assert!(matches!(pool.dispatch(0), Some(Step::Exit)));
    assert!(matches!(pool.dispatch(1), Some(Step::Exit)));
    assert!(pool.is_terminated());
    assert!(pool.dispatch(0).is_none());
    assert!(!pool.complete(1, Outcome::Completed));
    assert!(pool.execute(9).is_err());
    assert!(pool.is_terminated());
    assert_eq!(pool.worker_state(0), Some(WorkerState::Terminated));
    assert_eq!(pool.worker_state(1), Some(WorkerState::Terminated));
}

#[test]
fn pool_runs_jobs_that_are_closures() {
    let mut pool: WorkerPool<Box<dyn FnOnce() -> u32>> = match WorkerPool::new(2) {
        Ok(pool) => pool,
        Err(_) => panic!("a pool of two workers was refused"),
    };
    assert!(pool.execute(Box::new(|| 6 * 7)).is_ok());
    assert!(pool.execute(Box::new(|| 10 + 1)).is_ok());
    pool.shutdown();
    let mut results = Vec::new();
    let mut worker = 0usize;
    while !pool.is_terminated() {
        match pool.dispatch(worker) {
            Some(Step::Run(job)) => {
                results.push(job());
                assert!(pool.complete(worker, Outcome::Completed));
            }
            Some(Step::Exit) | None => worker = (worker + 1) % 2,
            Some(Step::Wait) => panic!("a pool in shutdown told a worker to wait"),
        }
    }
    assert_eq!(results, vec![42, 11]);
}
