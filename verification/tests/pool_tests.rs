use worker_pool::Message;
use worker_pool::ThreadPool;
use worker_pool::Worker;
use worker_pool::WorkerState;

#[test]
fn new_yields_n_running_workers() {
    for n in 1..6usize {
        let pool: ThreadPool<u64> = ThreadPool::new(n);
        assert_eq!(pool.workers.len(), n);
        for (i, worker) in pool.workers.iter().enumerate() {
            assert_eq!(worker.id, i);
            assert_eq!(worker.state, WorkerState::Running);
        }
        assert!(pool.queue.is_empty());
        assert!(pool.executed.is_empty());
        assert_eq!(pool.terminates_sent, 0);
        assert_eq!(pool.terminates_consumed, 0);
    }
}

#[test]
fn on_message_job_keeps_worker_running() {
    let mut worker = Worker::new(3);
    let job = worker.on_message(Message::NewJob(41u64));
    assert_eq!(job, Some(41));
    assert_eq!(worker.id, 3);
    assert_eq!(worker.state, WorkerState::Running);
}

#[test]
fn on_message_terminate_stops_worker() {
    let mut worker = Worker::new(0);
    let job = worker.on_message(Message::<u64>::Terminate);
    assert_eq!(job, None);
    assert_eq!(worker.state, WorkerState::Stopped);
}

#[test]
fn excute_enqueues_in_submission_order() {
    let mut pool: ThreadPool<u64> = ThreadPool::new(2);
    pool.excute(1);
    pool.excute(2);
    pool.excute(3);
    assert_eq!(pool.queue.len(), 3);
    assert!(matches!(pool.queue[0], Message::NewJob(1)));
    assert!(matches!(pool.queue[1], Message::NewJob(2)));
    assert!(matches!(pool.queue[2], Message::NewJob(3)));
    assert!(pool.executed.is_empty());
}

#[test]
fn step_executes_front_job_and_keeps_worker_running() {
    let mut pool: ThreadPool<u64> = ThreadPool::new(2);
    pool.excute(7);
    pool.excute(8);
    pool.step(1);
    assert_eq!(pool.executed, vec![7]);
    assert_eq!(pool.queue.len(), 1);
    assert!(matches!(pool.queue[0], Message::NewJob(8)));
    assert_eq!(pool.workers[1].state, WorkerState::Running);
    assert_eq!(pool.terminates_consumed, 0);
}

#[test]
fn shutdown_executes_all_enqueued_jobs_in_order() {
    let mut pool: ThreadPool<u64> = ThreadPool::new(3);
    pool.excute(10);
    pool.excute(20);
    pool.excute(30);
    pool.excute(40);
    pool.shutdown();
    assert_eq!(pool.executed, vec![10, 20, 30, 40]);
    assert!(pool.queue.is_empty());
}

#[test]
fn shutdown_executes_no_job_twice_and_loses_none() {
    let mut pool: ThreadPool<u64> = ThreadPool::new(2);
    for job in [5u64, 6, 5, 7] {
        pool.excute(job);
    }
    pool.shutdown();
    let count = |j: u64| pool.executed.iter().filter(|&&x| x == j).count();
    assert_eq!(count(5), 2);
    assert_eq!(count(6), 1);
    assert_eq!(count(7), 1);
    assert_eq!(pool.executed.len(), 4);
}

#[test]
fn pool_of_k_runs_k_submitted_jobs() {
    let k: usize = 4;
    let mut pool: ThreadPool<u64> = ThreadPool::new(k);
    for _ in 0..k {
        pool.excute(1);
    }
    pool.shutdown();
    let counter: u64 = pool.executed.iter().sum();
    assert_eq!(counter, k as u64);
}

#[test]
fn shutdown_sends_one_terminate_per_worker() {
    for n in [1usize, 2, 5] {
        let mut pool: ThreadPool<u64> = ThreadPool::new(n);
        pool.excute(9);
        pool.shutdown();
        assert_eq!(pool.terminates_sent, n);
        assert_eq!(pool.terminates_consumed, n);
        let stopped = pool
            .workers
            .iter()
            .filter(|w| w.state == WorkerState::Stopped)
            .count();
        assert_eq!(stopped, n);
    }
}

#[test]
fn shutdown_returns_only_with_every_worker_stopped() {
    let mut pool: ThreadPool<u64> = ThreadPool::new(4);
    pool.excute(2);
    pool.shutdown();
    for worker in &pool.workers {
        assert_eq!(worker.state, WorkerState::Stopped);
    }
}

#[test]
fn jobs_run_before_and_after_midlife_dispatch_in_order() {
    let mut pool: ThreadPool<u64> = ThreadPool::new(2);
    pool.excute(1);
    pool.excute(2);
    pool.step(0);
    pool.excute(3);
    pool.shutdown();
    assert_eq!(pool.executed, vec![1, 2, 3]);
}

#[test]
fn shutdown_of_idle_pool_executes_nothing() {
    let mut pool: ThreadPool<u64> = ThreadPool::new(3);
    pool.shutdown();
    assert!(pool.executed.is_empty());
    assert!(pool.queue.is_empty());
    assert_eq!(pool.terminates_sent, 3);
}

#[test]
fn single_worker_pool_runs_all_jobs_alone() {
    let mut pool: ThreadPool<u64> = ThreadPool::new(1);
    pool.excute(11);
    pool.excute(12);
    pool.shutdown();
    assert_eq!(pool.executed, vec![11, 12]);
    assert_eq!(pool.workers.len(), 1);
    assert_eq!(pool.workers[0].state, WorkerState::Stopped);
}
