use mdserve::pool::{PollOutcome, SubmitError, ThreadPool};

#[test]
fn two_workers_ten_jobs_each_exactly_once() {
    let mut pool = ThreadPool::new(2);
    for id in 0u64..10 {
        pool.execute(id).expect("pool is open");
    }
    pool.shutdown();
    let mut collected: Vec<u64> = Vec::new();
    let mut done = [false, false];
    let mut w = 0;
    while !(done[0] && done[1]) {
        if done[w] {
            w = 1 - w;
            continue;
        }
        match pool.poll(w) {
            PollOutcome::Run(id) => {
                collected.push(id);
                pool.complete(w);
            }
            PollOutcome::Wait => unreachable!("queue is closed, workers never wait"),
            PollOutcome::Exit => {
                done[w] = true;
            }
        }
        w = 1 - w;
    }
    let mut sorted = collected.clone();
    sorted.sort();
    assert_eq!(sorted, (0u64..10).collect::<Vec<u64>>());
    assert_eq!(collected.len(), 10);
    assert!(pool.all_terminated());
}

#[test]
fn jobs_are_handed_out_in_submission_order() {
    let mut pool = ThreadPool::new(1);
    pool.execute(7).unwrap();
    pool.execute(8).unwrap();
    pool.execute(9).unwrap();
    assert!(matches!(pool.poll(0), PollOutcome::Run(7)));
    pool.complete(0);
    assert!(matches!(pool.poll(0), PollOutcome::Run(8)));
    pool.complete(0);
    assert!(matches!(pool.poll(0), PollOutcome::Run(9)));
    pool.complete(0);
}

#[test]
fn submit_after_shutdown_is_rejected() {
    let mut pool = ThreadPool::new(3);
    pool.execute(1).unwrap();
    pool.shutdown();
    assert_eq!(pool.execute(2), Err(SubmitError::PoolClosed));
}

#[test]
fn idle_worker_waits_while_pool_is_open() {
    let mut pool = ThreadPool::new(1);
    assert!(matches!(pool.poll(0), PollOutcome::Wait));
    assert!(!pool.all_terminated());
}

#[test]
fn worker_finishes_current_job_before_exiting() {
    let mut pool = ThreadPool::new(1);
    pool.execute(5).unwrap();
    assert!(matches!(pool.poll(0), PollOutcome::Run(5)));
    pool.shutdown();
    pool.complete(0);
    assert!(matches!(pool.poll(0), PollOutcome::Exit));
    assert!(pool.all_terminated());
}

#[test]
fn drained_closed_pool_terminates_all_workers() {
    let mut pool = ThreadPool::new(3);
    pool.execute(0).unwrap();
    pool.shutdown();
    assert!(matches!(pool.poll(1), PollOutcome::Run(0)));
    pool.complete(1);
    for w in 0..3 {
        assert!(matches!(pool.poll(w), PollOutcome::Exit));
    }
    assert!(pool.all_terminated());
}
