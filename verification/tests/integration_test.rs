use std::time::Instant;

use crossbeam_channel::unbounded;

use rust_tp::patrol::Action;
use rust_tp::{PoolError, ThreadPool, Worker};

type Job = Box<dyn FnOnce() + Send + 'static>;

/// Lets the worker run one job.
fn run_one(worker: &mut Worker<Job>) {
    loop {
        match worker.turn() {
            Action::Run(job) => {
                job();
                worker.finished();
                return;
            }
            Action::Again => {}
            _ => panic!("the worker found no job"),
        }
    }
}

#[test]
fn test_pool_from_outside() {
    let pool = ThreadPool::<Job>::build(0);
    assert!(matches!(pool, Err(PoolError::ZeroWorkers)));

    let (mut pool, mut crew) = ThreadPool::<Job>::build(4).unwrap();

    let start = Instant::now();

    for _ in 0..100_000_000u64 {
        let woken = pool.execute(Box::new(|| {})).unwrap();
        run_one(&mut crew[woken]);
    }

    for woken in pool.shutdown() {
        assert!(matches!(crew[woken].turn(), Action::Leave));
    }

    let total_elapsed = start.elapsed();
    println!("All 100M jobs completed in: {:?}", total_elapsed);
    println!(
        "Throughput: {:.2}M tasks/sec",
        100.0 / total_elapsed.as_secs_f64()
    );
    assert_eq!(
        pool.report(),
        vec![
            "Worker 0 completed 25000000 tasks",
            "Worker 1 completed 25000000 tasks",
            "Worker 2 completed 25000000 tasks",
            "Worker 3 completed 25000000 tasks",
        ]
    );

    let (pool, mut crew) = ThreadPool::<Job>::build(4).unwrap();
    let (tx, rx) = unbounded();
    let woken = pool
        .execute(Box::new(move || {
            tx.send("hello from worker").unwrap();
        }))
        .unwrap();
    run_one(&mut crew[woken]);

    let received = rx.recv().unwrap();
    assert_eq!(received, "hello from worker");
}
