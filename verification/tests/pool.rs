use std::sync::atomic::{AtomicUsize, Ordering};
use std::sync::{Arc, Mutex};

use crossbeam_channel::unbounded;

use rust_tp::entry::Yard;
use rust_tp::patrol::Action;
use rust_tp::{PoolError, ThreadPool, Worker};

type Job = Box<dyn FnOnce() + Send + 'static>;

/// Takes turns for a worker until it leaves, and says how many jobs it ran.
fn drive(worker: &mut Worker<Job>) -> usize {
    let mut ran = 0;
    loop {
        match worker.turn() {
            Action::Run(job) => {
                job();
                worker.finished();
                ran += 1;
            }
            Action::Again | Action::Spin => {}
            Action::Park => panic!("a worker of a closed pool went to sleep"),
            Action::Leave => return ran,
        }
    }
}

#[test]
fn test_closure_as_job() {
    let (tx, rx) = unbounded::<Job>();
    let msg = String::from("Dummy String");
    let job: Job = Box::new(move || {
        println!("Executing job for {}", msg);
    });

    tx.send(job).unwrap();
    let received_job = rx.recv().unwrap();
    received_job();
}

#[test]
fn test_threadpool_execution() {
    let (mut pool, mut crew) = ThreadPool::<Job>::build(4).unwrap();
    let executed = Arc::new(AtomicUsize::new(0));
    for i in 0..8 {
        let executed = Arc::clone(&executed);
        pool.execute(Box::new(move || {
            println!("Executing job {} from test", i);
            executed.fetch_add(1, Ordering::SeqCst);
        }))
        .unwrap();
    }
    pool.shutdown();
    for worker in &mut crew {
        drive(worker);
    }
    assert_eq!(executed.load(Ordering::SeqCst), 8);
}

#[test]
fn zero_workers_are_rejected() {
    assert!(matches!(
        ThreadPool::<Job>::build(0),
        Err(PoolError::ZeroWorkers)
    ));
    assert!(matches!(
        ThreadPool::<Job>::with_cores(0, Vec::new()),
        Err(PoolError::ZeroWorkers)
    ));
}

#[test]
fn workers_are_numbered() {
    let (_pool, crew) = ThreadPool::<Job>::build(5).unwrap();
    let ids: Vec<usize> = crew.iter().map(|worker| worker.id()).collect();
    assert_eq!(ids, vec![0, 1, 2, 3, 4]);
}

#[test]
fn workers_are_woken_round_robin() {
    let (pool, _crew) = ThreadPool::<Job>::build(3).unwrap();
    let woken: Vec<usize> = (0..7)
        .map(|_| pool.execute(Box::new(|| {})).unwrap())
        .collect();
    assert_eq!(woken, vec![0, 1, 2, 0, 1, 2, 0]);
}

#[test]
fn closed_pool_refuses_jobs() {
    let (mut pool, _crew) = ThreadPool::<Job>::build(2).unwrap();
    assert_eq!(pool.execute(Box::new(|| {})), Ok(0));
    assert_eq!(pool.shutdown(), vec![0, 1]);
    assert_eq!(
        pool.execute(Box::new(|| panic!("a refused job was run"))),
        Err(PoolError::SendError)
    );
    assert_eq!(pool.shutdown(), vec![0, 1]);
}

#[test]
fn jobs_of_a_closed_pool_are_all_run() {
    for size in 1..4 {
        let (mut pool, mut crew) = ThreadPool::<Job>::build(size).unwrap();
        let executed = Arc::new(AtomicUsize::new(0));
        for _ in 0..100 {
            let executed = Arc::clone(&executed);
            pool.execute(Box::new(move || {
                executed.fetch_add(1, Ordering::SeqCst);
            }))
            .unwrap();
        }
        pool.shutdown();
        let ran: usize = crew.iter_mut().map(drive).sum();
        assert_eq!(ran, 100);
        assert_eq!(executed.load(Ordering::SeqCst), 100);
    }
}

#[test]
fn many_jobs_may_wait_before_any_is_run() {
    let (mut pool, mut crew) = ThreadPool::<Job>::build(4).unwrap();
    let executed = Arc::new(AtomicUsize::new(0));
    for i in 0..1_000_000 {
        let executed = Arc::clone(&executed);
        let woken = pool
            .execute(Box::new(move || {
                executed.fetch_add(1, Ordering::Relaxed);
            }))
            .unwrap();
        assert_eq!(woken, i % 4);
    }
    assert_eq!(executed.load(Ordering::Relaxed), 0);
    pool.shutdown();
    let ran: usize = crew.iter_mut().map(drive).sum();
    assert_eq!(ran, 1_000_000);
    assert_eq!(executed.load(Ordering::Relaxed), 1_000_000);
}

#[test]
fn jobs_of_an_open_pool_are_claimed_in_the_order_of_submission() {
    let (pool, mut crew) = ThreadPool::<u32>::build(3).unwrap();
    for job in 0..30 {
        pool.execute(job).unwrap();
    }
    let mut claimed = Vec::new();
    for turn in 0..30 {
        let worker = &mut crew[(turn * 2) % 3];
        match worker.turn() {
            Action::Run(job) => {
                claimed.push(job);
                worker.finished();
            }
            _ => panic!("the worker found no job"),
        }
    }
    let expected: Vec<u32> = (0..30).collect();
    assert_eq!(claimed, expected);
    assert!(matches!(crew[0].turn(), Action::Spin));
}

#[test]
fn a_refused_job_is_neither_queued_nor_counted() {
    let (mut pool, mut crew) = ThreadPool::<u32>::build(2).unwrap();
    pool.shutdown();
    for job in 0..10 {
        assert_eq!(pool.execute(job), Err(PoolError::SendError));
    }
    assert!(matches!(crew[1].turn(), Action::Leave));
    assert!(matches!(crew[0].turn(), Action::Leave));
    assert_eq!(
        pool.report(),
        vec!["Worker 0 completed 0 tasks", "Worker 1 completed 0 tasks"]
    );
}

#[test]
fn two_pools_are_apart() {
    let (mut first, mut first_crew) = ThreadPool::<u32>::build(1).unwrap();
    let (second, mut second_crew) = ThreadPool::<u32>::build(1).unwrap();
    assert_eq!(first.execute(1), Ok(0));
    assert_eq!(second.execute(2), Ok(0));
    first.shutdown();
    assert_eq!(first.execute(3), Err(PoolError::SendError));
    assert_eq!(second.execute(4), Ok(0));
    assert!(matches!(first_crew[0].turn(), Action::Run(1)));
    first_crew[0].finished();
    assert!(matches!(first_crew[0].turn(), Action::Leave));
    assert!(matches!(second_crew[0].turn(), Action::Run(2)));
    second_crew[0].finished();
    assert!(matches!(second_crew[0].turn(), Action::Run(4)));
    second_crew[0].finished();
    assert!(matches!(second_crew[0].turn(), Action::Spin));
    assert_eq!(first.report(), vec!["Worker 0 completed 1 tasks"]);
    assert_eq!(second.report(), vec!["Worker 0 completed 2 tasks"]);
}

#[test]
fn pools_of_one_yard_are_apart() {
    let mut yard = Yard::<u32>::new();
    assert!(matches!(yard.build(0), Err(PoolError::ZeroWorkers)));
    let (mut first, mut first_crew) = yard.build(2).unwrap();
    let (second, mut second_crew) = yard.with_cores(1, Vec::new()).unwrap();
    assert_eq!(first.execute(1), Ok(0));
    assert_eq!(first.execute(2), Ok(1));
    assert_eq!(second.execute(3), Ok(0));
    assert_eq!(first.shutdown(), vec![0, 1]);
    assert!(matches!(second_crew[0].turn(), Action::Run(3)));
    second_crew[0].finished();
    assert!(matches!(second_crew[0].turn(), Action::Spin));
    assert_eq!(second.execute(4), Ok(0));
    assert!(matches!(first_crew[1].turn(), Action::Run(1)));
    assert!(matches!(first_crew[0].turn(), Action::Run(2)));
    assert!(matches!(first_crew[0].turn(), Action::Leave));
    assert!(matches!(second_crew[0].turn(), Action::Run(4)));
}

#[test]
fn a_worker_lost_to_a_panic_takes_no_other_job_with_it() {
    let (mut pool, mut crew) = ThreadPool::<u32>::build(2).unwrap();
    for job in 0..5 {
        pool.execute(job).unwrap();
    }
    let mut lost = crew.remove(0);
    assert!(matches!(lost.turn(), Action::Run(0)));
    drop(lost);
    pool.shutdown();
    for job in 1..5 {
        match crew[0].turn() {
            Action::Run(claimed) => assert_eq!(claimed, job),
            _ => panic!("the worker found no job"),
        }
        crew[0].finished();
    }
    assert!(matches!(crew[0].turn(), Action::Leave));
    assert_eq!(
        pool.report(),
        vec!["Worker 0 completed 0 tasks", "Worker 1 completed 4 tasks"]
    );
}

#[test]
fn a_job_submitted_before_the_shutdown_is_found_after_it() {
    let (mut pool, mut crew) = ThreadPool::<u32>::build(2).unwrap();
    assert!(matches!(crew[0].turn(), Action::Spin));
    pool.execute(5).unwrap();
    pool.shutdown();
    assert!(matches!(crew[0].turn(), Action::Run(5)));
    assert!(matches!(crew[1].turn(), Action::Leave));
    crew[0].finished();
    assert!(matches!(crew[0].turn(), Action::Leave));
    assert_eq!(
        pool.report(),
        vec!["Worker 0 completed 1 tasks", "Worker 1 completed 0 tasks"]
    );
}

#[test]
fn one_worker_runs_jobs_in_the_order_of_submission() {
    let (mut pool, mut crew) = ThreadPool::<Job>::build(1).unwrap();
    let order = Arc::new(Mutex::new(Vec::new()));
    for i in 0..100 {
        let order = Arc::clone(&order);
        pool.execute(Box::new(move || order.lock().unwrap().push(i)))
            .unwrap();
    }
    pool.shutdown();
    assert_eq!(drive(&mut crew[0]), 100);
    let expected: Vec<i32> = (0..100).collect();
    assert_eq!(*order.lock().unwrap(), expected);
}

#[test]
fn idle_worker_spins_then_parks() {
    let (_pool, mut crew) = ThreadPool::<Job>::build(2).unwrap();
    for _ in 0..3 {
        for _ in 0..200 {
            assert!(matches!(crew[0].turn(), Action::Spin));
        }
        assert!(matches!(crew[0].turn(), Action::Park));
    }
}

#[test]
fn a_job_starts_the_spinning_anew() {
    let (pool, mut crew) = ThreadPool::<Job>::build(1).unwrap();
    for _ in 0..150 {
        assert!(matches!(crew[0].turn(), Action::Spin));
    }
    pool.execute(Box::new(|| {})).unwrap();
    match crew[0].turn() {
        Action::Run(job) => job(),
        other => panic!("expected a job, got {:?}", matches!(other, Action::Spin)),
    }
    crew[0].finished();
    for _ in 0..200 {
        assert!(matches!(crew[0].turn(), Action::Spin));
    }
    assert!(matches!(crew[0].turn(), Action::Park));
}

#[test]
fn completed_jobs_are_reported() {
    let (mut pool, mut crew) = ThreadPool::<Job>::build(2).unwrap();
    assert_eq!(
        pool.report(),
        vec!["Worker 0 completed 0 tasks", "Worker 1 completed 0 tasks"]
    );
    for _ in 0..12 {
        pool.execute(Box::new(|| {})).unwrap();
    }
    pool.shutdown();
    assert_eq!(drive(&mut crew[1]), 12);
    assert_eq!(drive(&mut crew[0]), 0);
    assert_eq!(
        pool.report(),
        vec!["Worker 0 completed 0 tasks", "Worker 1 completed 12 tasks"]
    );
}

#[test]
fn a_job_hands_back_a_result() {
    let (pool, mut crew) = ThreadPool::<Job>::build(4).unwrap();
    let (tx, rx) = unbounded();
    let woken = pool
        .execute(Box::new(move || tx.send(42u32).unwrap()))
        .unwrap();
    match crew[woken].turn() {
        Action::Run(job) => job(),
        _ => panic!("the worker found no job"),
    }
    assert_eq!(rx.recv().unwrap(), 42);
}

#[test]
fn jobs_may_be_submitted_from_several_threads() {
    fn shareable<T: Send + Sync>(_: &T) {}
    fn movable<T: Send>(_: &T) {}
    let (pool, crew) = ThreadPool::<Job>::build(1).unwrap();
    shareable(&pool);
    movable(&crew);
}
