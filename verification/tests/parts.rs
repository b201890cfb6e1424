use std::sync::Arc;

use core_affinity::CoreId;
use crossbeam_deque::{Injector, Steal, Worker as LocalQueue};

use rust_tp::affinity::target_core;
use rust_tp::backoff::{idle, Idle, MAX_SPINS};
use rust_tp::dispatch::worker_to_wake;
use rust_tp::entry::employ;
use rust_tp::entry::journal::{Counter, Flag};
use rust_tp::patrol::{Action, Patrol, Step, Sweep};
use rust_tp::report::{completed_line, unpinned_line};
use rust_tp::search::Source;
use rust_tp::station::Station;
use rust_tp::ThreadPool;

#[test]
fn sources_follow_one_another() {
    assert_eq!(Source::Own.next(2), Some(Source::Global));
    assert_eq!(Source::Global.next(2), Some(Source::Peer(0)));
    assert_eq!(Source::Peer(0).next(2), Some(Source::Peer(1)));
    assert_eq!(Source::Peer(1).next(2), None);
    assert_eq!(Source::Global.next(0), None);
    assert_eq!(Source::Peer(usize::MAX).next(usize::MAX), None);
}

#[test]
fn a_search_asks_every_source_once() {
    let mut patrol = Patrol { sweep: None, spins: 7 }.begin(false);
    let mut asked = Vec::new();
    loop {
        let sweep = patrol.sweep.unwrap();
        assert!(!sweep.closing);
        asked.push(sweep.at);
        let (next, step) = patrol.advance(2, Steal::<u32>::Empty);
        patrol = next;
        match step {
            Step::On => {}
            Step::Done(action) => {
                assert!(matches!(action, Action::Spin));
                break;
            }
        }
    }
    assert_eq!(
        asked,
        vec![Source::Own, Source::Global, Source::Peer(0), Source::Peer(1)]
    );
    assert_eq!(patrol, Patrol { sweep: None, spins: 8 });
}

#[test]
fn a_search_ends_with_the_first_job() {
    let at = |at: Source| Patrol {
        sweep: Some(Sweep { closing: true, at }),
        spins: 3,
    };
    let (patrol, step) = at(Source::Peer(1)).advance(3, Steal::Success(7));
    assert_eq!(patrol, Patrol { sweep: None, spins: 3 });
    assert!(matches!(step, Step::Done(Action::Run(7))));
    assert_eq!(patrol.rest(), Patrol { sweep: None, spins: 0 });

    let (patrol, step) = at(Source::Peer(2)).advance(3, Steal::<u32>::Empty);
    assert_eq!(patrol, Patrol { sweep: None, spins: 3 });
    assert!(matches!(step, Step::Done(Action::Leave)));
}

#[test]
fn a_collision_is_resumed_at_the_same_source() {
    let patrol = Patrol { sweep: None, spins: 0 }.begin(true);
    let (patrol, step) = patrol.advance(1, Steal::<char>::Empty);
    assert!(matches!(step, Step::On));
    let global = Patrol {
        sweep: Some(Sweep { closing: true, at: Source::Global }),
        spins: 0,
    };
    assert_eq!(patrol, global);
    for _ in 0..2 {
        let (same, step) = patrol.advance(1, Steal::<char>::Retry);
        assert_eq!(same, global);
        assert!(matches!(step, Step::Done(Action::Again)));
    }
    let (_, step) = patrol.advance(1, Steal::Success('x'));
    assert!(matches!(step, Step::Done(Action::Run('x'))));
}

#[test]
fn a_worker_that_sleeps_has_spun_enough() {
    let last = Patrol {
        sweep: Some(Sweep { closing: false, at: Source::Peer(0) }),
        spins: 200,
    };
    let (patrol, step) = last.advance(1, Steal::<u32>::Empty);
    assert_eq!(patrol, Patrol { sweep: None, spins: 0 });
    assert!(matches!(step, Step::Done(Action::Park)));
}

fn station(own: LocalQueue<u32>, global: Injector<u32>, peers: &[LocalQueue<u32>]) -> Station<u32> {
    let mut stealers = vec![own.stealer()];
    stealers.extend(peers.iter().map(|queue| queue.stealer()));
    Station::new(
        0,
        own,
        Arc::new(global),
        stealers,
        Arc::new(Flag::new()),
        Arc::new(Counter::new()),
        None,
    )
}

#[test]
fn own_queue_comes_first_then_the_global_queue_then_the_peers() {
    let own = LocalQueue::new_lifo();
    own.push(1);
    own.push(2);
    let global = Injector::new();
    global.push(3);
    global.push(4);
    let peers = [LocalQueue::new_lifo(), LocalQueue::new_lifo()];
    peers[0].push(5);
    peers[0].push(6);
    peers[1].push(7);
    let mut worker = employ(station(own, global, &peers));
    let mut found = Vec::new();
    loop {
        match worker.turn() {
            Action::Run(job) => {
                found.push(job);
                worker.finished();
            }
            Action::Again => {}
            Action::Spin => break,
            Action::Park | Action::Leave => panic!("the pool is open"),
        }
    }
    assert_eq!(found, vec![2, 1, 3, 4, 5, 6, 7]);
}

#[test]
fn stations_know_their_number_and_their_peers() {
    let peers = [LocalQueue::new_lifo()];
    let station = station(LocalQueue::new_lifo(), Injector::new(), &peers);
    assert_eq!(station.id(), 0);
    assert_eq!(station.peer_count(), 2);
}

#[test]
fn counters_have_cache_lines_of_their_own() {
    assert!(std::mem::size_of::<Counter>() >= 64);
    assert_eq!(std::mem::align_of::<Counter>() % 64, 0);
}

#[test]
fn idle_choices() {
    assert_eq!(MAX_SPINS, 200);
    assert_eq!(idle(false, 0), (Idle::Spin, 1));
    assert_eq!(idle(false, 199), (Idle::Spin, 200));
    assert_eq!(idle(false, 200), (Idle::Park, 0));
    assert_eq!(idle(true, 0), (Idle::Leave, 0));
    assert_eq!(idle(true, 200), (Idle::Leave, 200));
}

#[test]
fn tickets_wrap_round_the_workers() {
    assert_eq!(worker_to_wake(0, 4), 0);
    assert_eq!(worker_to_wake(7, 4), 3);
    assert_eq!(worker_to_wake(8, 4), 0);
    assert_eq!(worker_to_wake(usize::MAX, 1), 0);
}

#[test]
fn cores_are_dealt_out_in_turn() {
    let cores = vec![CoreId { id: 2 }, CoreId { id: 5 }, CoreId { id: 6 }];
    assert_eq!(target_core(0, &cores), Some(CoreId { id: 2 }));
    assert_eq!(target_core(2, &cores), Some(CoreId { id: 6 }));
    assert_eq!(target_core(4, &cores), Some(CoreId { id: 5 }));
    assert_eq!(target_core(4, &Vec::new()), None);
}

#[test]
fn pinning_confines_the_thread_to_the_core() {
    if let Some(cores) = core_affinity::get_core_ids() {
        let (_pool, mut crew) = ThreadPool::<u32>::with_cores(1, cores.clone()).unwrap();
        if crew[0].pin() {
            assert_eq!(core_affinity::get_core_ids(), Some(vec![cores[0]]));
        }
    }
}

#[test]
fn a_worker_without_a_core_is_left_alone() {
    let before = core_affinity::get_core_ids();
    let (_pool, mut crew) = ThreadPool::<u32>::with_cores(2, Vec::new()).unwrap();
    assert!(crew[0].pin());
    assert!(crew[1].pin());
    assert_eq!(core_affinity::get_core_ids(), before);
}

#[test]
fn lines_on_workers() {
    assert_eq!(completed_line(0, 0), "Worker 0 completed 0 tasks");
    assert_eq!(completed_line(10, 1125860), "Worker 10 completed 1125860 tasks");
    assert_eq!(
        completed_line(3, usize::MAX),
        format!("Worker 3 completed {} tasks", usize::MAX)
    );
    assert_eq!(
        unpinned_line(12),
        "Worker 12: affinity unavailable, running unpinned"
    );
}
