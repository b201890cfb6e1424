//! What becomes of the jobs while the pool is open: in which order they are claimed, that none
//! waits for good, and how the counts of completed jobs add up.

use vstd::prelude::*;

use crossbeam_deque::Steal;

use crate::dispatch::{law_round_robin, ticket_for, wake_target};
use crate::lifecycle::{
    law_always_sound, law_panics_spare_other_jobs, lemma_event, Event, Fleet, Hand, Status,
};
use crate::search::{sources, Source};
use crate::trace::finishes;

verus! {

/// The jobs that are accepted by these events, in their order.
pub open spec fn accepted<J>(events: Seq<Event<J>>) -> Seq<J>
    decreases events.len(),
{
    if events.len() == 0 {
        Seq::empty()
    } else {
        match events.last() {
            Event::Submit(job, _) => accepted(events.drop_last()).push(job),
            _ => accepted(events.drop_last()),
        }
    }
}

/// The jobs that workers claim by these events, in their order.
pub open spec fn claimed<J>(events: Seq<Event<J>>) -> Seq<J>
    decreases events.len(),
{
    if events.len() == 0 {
        Seq::empty()
    } else {
        match events.last() {
            Event::Probe(_, Steal::Success(job)) => claimed(events.drop_last()).push(job),
            _ => claimed(events.drop_last()),
        }
    }
}

/// The event is one of the worker's own thread, and is no attempt that was lost to another
/// thread.
pub open spec fn steps<J>(event: Event<J>, worker: int) -> bool {
    match event {
        Event::Look(who) => who == worker,
        Event::Probe(who, answer) => who == worker && !(answer is Retry),
        Event::Finish(who) => who == worker,
        Event::Unpark(who) => who == worker,
        _ => false,
    }
}

/// How many of the events are steps of the worker.
pub open spec fn step_count<J>(events: Seq<Event<J>>, worker: int) -> nat
    decreases events.len(),
{
    if events.len() == 0 {
        0
    } else {
        step_count(events.drop_last(), worker) + if steps(events.last(), worker) {
            1nat
        } else {
            0nat
        }
    }
}

/// How many jobs the first `workers` workers have completed by these events.
pub open spec fn completed<J>(events: Seq<Event<J>>, workers: nat) -> nat
    decreases workers,
{
    if workers == 0 {
        0
    } else {
        completed(events, (workers - 1) as nat) + finishes(events, workers - 1)
    }
}

/// The events of several rounds, one round after the other.
pub open spec fn flat<J>(rounds: Seq<Seq<Event<J>>>) -> Seq<Event<J>>
    decreases rounds.len(),
{
    if rounds.len() == 0 {
        Seq::empty()
    } else {
        flat(rounds.drop_last()) + rounds.last()
    }
}

/// In each of the rounds that follow `events`, if jobs wait when it begins, some worker that is
/// sure to look takes more steps than its distance from the global queue.
pub open spec fn paced<J>(
    workers: nat,
    events: Seq<Event<J>>,
    rounds: Seq<Seq<Event<J>>>,
) -> bool
    decreases rounds.len(),
{
    rounds.len() > 0 ==> {
        let fleet = Fleet::reached(workers, events + flat(rounds.drop_last()));
        &&& paced(workers, events, rounds.drop_last())
        &&& fleet.queue.len() > 0 ==> exists|i: int|
            0 <= i < workers && (#[trigger] fleet.hands[i]).will_look() && step_count(
                rounds.last(),
                i,
            ) > fleet.hands[i].distance(sources(workers))
    }
}

impl<J> Hand<J> {
    /// A bound on the steps that the worker takes before the one by which it asks the global
    /// queue, in a pool with `sources` queues.
    pub open spec fn distance(self, sources: int) -> int {
        match self.status {
            Status::Gone => 0,
            Status::Crashed => 0,
            Status::Running(_) => 3,
            Status::Parked => 3,
            Status::Searching => match self.patrol.sweep {
                None => 2,
                Some(sweep) => if sweep.at.place() <= Source::Global.place() {
                    Source::Global.place() - sweep.at.place()
                } else {
                    3 + sources - sweep.at.place()
                },
            },
        }
    }
}

/// Jobs are claimed in the order in which they were accepted: the accepted jobs are those that
/// were claimed, then those that wait in the queue. So every job is appended behind those that
/// wait, none overtakes another, and none is claimed twice.
pub proof fn law_first_come_first_claimed<J>(workers: nat, events: Seq<Event<J>>)
    requires
        workers > 0,
        Fleet::possible(workers, events),
    ensures
        accepted(events) == claimed(events) + Fleet::reached(workers, events).queue,
    decreases events.len(),
{
    if events.len() > 0 {
        let earlier = events.drop_last();
        law_first_come_first_claimed(workers, earlier);
        law_always_sound(workers, earlier);
        let before = Fleet::reached(workers, earlier);
        let after = Fleet::reached(workers, events);
        match events.last() {
            Event::Submit(job, _) => {
                assert(after.queue == before.queue.push(job));
            },
            Event::Probe(worker, answer) => {
                law_jobs_come_from_the_queue(workers, earlier, worker, answer);
                if let Steal::Success(job) = answer {
                    assert(before.queue =~= seq![job] + after.queue);
                }
            },
            _ => {},
        }
        assert(accepted(events) =~= claimed(events) + after.queue);
    }
}

/// A worker never gets a job but one that was submitted: whichever queue it asks, a job is only
/// ever found in the global queue, and it is the oldest that waits there.
pub proof fn law_jobs_come_from_the_queue<J>(
    workers: nat,
    events: Seq<Event<J>>,
    worker: int,
    answer: Steal<J>,
)
    requires
        workers > 0,
        Fleet::possible(workers, events),
        Fleet::reached(workers, events).allows(Event::Probe(worker, answer)),
    ensures
        ({
            let fleet = Fleet::reached(workers, events);
            let next = fleet.after(Event::Probe(worker, answer));
            match answer {
                Steal::Success(job) => {
                    &&& fleet.hands[worker].patrol.sweep->0.at == Source::Global
                    &&& fleet.queue.len() > 0
                    &&& job == fleet.queue[0]
                    &&& next.queue == fleet.queue.drop_first()
                    &&& next.hands[worker].status == Status::Running(job)
                    &&& fleet.submitted.count(job) > 0
                },
                _ => next.queue == fleet.queue,
            }
        }),
{
    broadcast use vstd::seq_lib::group_to_multiset_ensures;

    law_always_sound(workers, events);
    let fleet = Fleet::reached(workers, events);
    let at = fleet.hands[worker].patrol.sweep->0.at;
    assert(fleet.hands[worker].sound(workers, fleet.closed, fleet.queue.len() == 0));
    if let Steal::Success(job) = answer {
        assert(at == Source::Global);
        assert(fleet.queue.contains(fleet.queue[0]));
        assert(fleet.queue.to_multiset().count(job) > 0);
    }
}

/// A claimed job is run to its end by the worker that claimed it: the end of the job can happen at
/// any time and adds it to the finished jobs, and nothing else puts an end to it but its own panic.
pub proof fn law_claimed_job_runs_to_its_end<J>(
    fleet: Fleet<J>,
    worker: int,
    job: J,
    event: Event<J>,
)
    requires
        fleet.employs(worker),
        fleet.hands[worker].status == Status::Running(job),
        fleet.allows(event),
    ensures
        fleet.allows(Event::Finish(worker)),
        if event == Event::<J>::Finish(worker) {
            fleet.after(event).finished == fleet.finished.insert(job)
        } else if event == Event::<J>::Crash(worker) {
            fleet.after(event).crashed == fleet.crashed.insert(job)
        } else {
            fleet.after(event).hands[worker].status == Status::Running(job)
        },
{
}

proof fn lemma_distance<J>(fleet: Fleet<J>, workers: nat, event: Event<J>, worker: int)
    requires
        0 < workers <= usize::MAX,
        fleet.sound(workers),
        fleet.allows(event),
        fleet.employs(worker),
        fleet.queue.len() > 0,
        fleet.hands[worker].will_look(),
        !(event matches Event::Probe(_, answer) && answer is Success),
        event != Event::<J>::Crash(worker),
    ensures
        fleet.after(event).hands[worker].will_look(),
        fleet.after(event).queue.len() > 0,
        0 <= fleet.after(event).hands[worker].distance(sources(workers)),
        fleet.after(event).hands[worker].distance(sources(workers)) <= fleet.hands[worker].distance(
            sources(workers),
        ) - if steps(event, worker) {
            1int
        } else {
            0int
        },
{
    lemma_event(fleet, workers, event);
    let next = fleet.after(event);
    let hand = fleet.hands[worker];
    assert(hand.sound(workers, fleet.closed, false));
    assert(next.hands[worker].sound(workers, next.closed, next.queue.len() == 0));
    if let Event::Probe(who, answer) = event {
        assert(next.queue == fleet.queue);
        if who == worker && answer is Empty {
            let at = hand.patrol.sweep->0.at;
            assert(at != Source::Global);
            match at.successor(workers) {
                Some(following) => assert(following.place() == at.place() + 1),
                None => assert(at.place() == sources(workers) - 1),
            }
        }
    }
}

/// While jobs wait, a worker that is sure to look can go on: what it does next can happen, a
/// sleeper has been woken, and if it is at the global queue, it gets the oldest job.
pub proof fn law_looker_can_go_on<J>(workers: nat, events: Seq<Event<J>>, worker: int)
    requires
        workers > 0,
        Fleet::possible(workers, events),
        Fleet::reached(workers, events).queue.len() > 0,
        0 <= worker < workers,
        Fleet::reached(workers, events).hands[worker].will_look(),
    ensures
        ({
            let fleet = Fleet::reached(workers, events);
            let hand = fleet.hands[worker];
            let event = fleet.next_event(worker);
            &&& fleet.allows(event)
            &&& event is Unpark ==> hand.token
            &&& event is Wake || steps(event, worker)
            &&& !(event is Wake) && hand.status is Searching && (
            hand.patrol.sweep matches Some(sweep) && sweep.at == Source::Global) ==> event
                == Event::Probe(worker, Steal::Success(fleet.queue[0]))
        }),
{
    law_always_sound(workers, events);
    let fleet = Fleet::reached(workers, events);
    assert(fleet.hands[worker].sound(workers, fleet.closed, false));
}

/// No job waits for good: if jobs wait, some worker is sure to look, and whatever the other
/// threads do in the meantime, once that worker has taken more steps than its distance from the
/// global queue, a job has been claimed; and the jobs that wait are claimed in their order.
pub proof fn law_no_job_waits_for_good<J>(
    workers: nat,
    events: Seq<Event<J>>,
    more: Seq<Event<J>>,
    worker: int,
)
    requires
        0 < workers <= usize::MAX,
        Fleet::possible(workers, events + more),
        Fleet::reached(workers, events + more).crashed.len() == 0,
        Fleet::reached(workers, events).queue.len() > 0,
        0 <= worker < workers,
        Fleet::reached(workers, events).hands[worker].will_look(),
        step_count(more, worker) > Fleet::reached(workers, events).hands[worker].distance(
            sources(workers),
        ),
    ensures
        claimed(more).len() > 0,
        claimed(more)[0] == Fleet::reached(workers, events).queue[0],
{
    lemma_looker_arrives(workers, events, more, worker);
    lemma_claimed_next(workers, events, more, 0);
}

/// All jobs that wait are claimed in time: let the threads run for some rounds, in each of which,
/// as long as jobs wait, some worker that is sure to look takes more steps than its distance from
/// the global queue. Then the job with `k` jobs before it is claimed within `k + 1` rounds.
pub proof fn law_every_job_claimed_in_time<J>(
    workers: nat,
    events: Seq<Event<J>>,
    rounds: Seq<Seq<Event<J>>>,
    k: int,
)
    requires
        0 < workers <= usize::MAX,
        Fleet::possible(workers, events + flat(rounds)),
        Fleet::reached(workers, events + flat(rounds)).crashed.len() == 0,
        paced(workers, events, rounds),
        0 <= k < rounds.len(),
        k < Fleet::reached(workers, events).queue.len(),
    ensures
        claimed(flat(rounds)).len() > k,
        claimed(flat(rounds))[k] == Fleet::reached(workers, events).queue[k],
{
    lemma_one_claim_a_round(workers, events, rounds);
    lemma_claimed_next(workers, events, flat(rounds), k);
}

proof fn lemma_possible_before<J>(workers: nat, events: Seq<Event<J>>, more: Seq<Event<J>>)
    requires
        Fleet::possible(workers, events + more),
    ensures
        Fleet::possible(workers, events),
    decreases more.len(),
{
    if more.len() == 0 {
        assert(events + more =~= events);
    } else {
        assert((events + more).drop_last() =~= events + more.drop_last());
        lemma_possible_before(workers, events, more.drop_last());
    }
}

proof fn lemma_no_crash_before<J>(workers: nat, events: Seq<Event<J>>, more: Seq<Event<J>>)
    requires
        Fleet::reached(workers, events + more).crashed.len() == 0,
    ensures
        Fleet::reached(workers, events).crashed.len() == 0,
        more.len() > 0 ==> !(more.last() is Crash),
    decreases more.len(),
{
    if more.len() == 0 {
        assert(events + more =~= events);
    } else {
        let fleet = Fleet::reached(workers, events + more.drop_last());
        assert((events + more).drop_last() =~= events + more.drop_last());
        assert((events + more).last() == more.last());
        if let Event::Crash(worker) = more.last() {
            let job = fleet.hands[worker].status->Running_0;
            assert(fleet.crashed.insert(job).len() == fleet.crashed.len() + 1);
        }
        lemma_no_crash_before(workers, events, more.drop_last());
    }
}

proof fn lemma_claimed_next<J>(
    workers: nat,
    events: Seq<Event<J>>,
    more: Seq<Event<J>>,
    k: int,
)
    requires
        workers > 0,
        Fleet::possible(workers, events + more),
        0 <= k < claimed(more).len(),
        k < Fleet::reached(workers, events).queue.len(),
    ensures
        claimed(more)[k] == Fleet::reached(workers, events).queue[k],
{
    lemma_possible_before(workers, events, more);
    law_first_come_first_claimed(workers, events);
    law_first_come_first_claimed(workers, events + more);
    lemma_joined(events, more);
    let n = claimed(events).len() + k;
    assert(accepted(events + more)[n] == accepted(events)[n]);
    assert(claimed(events + more)[n] == claimed(more)[k]);
}

proof fn lemma_one_claim_a_round<J>(
    workers: nat,
    events: Seq<Event<J>>,
    rounds: Seq<Seq<Event<J>>>,
)
    requires
        0 < workers <= usize::MAX,
        Fleet::possible(workers, events + flat(rounds)),
        Fleet::reached(workers, events + flat(rounds)).crashed.len() == 0,
        paced(workers, events, rounds),
    ensures
        claimed(flat(rounds)).len() >= rounds.len() || claimed(flat(rounds)).len()
            >= Fleet::reached(workers, events).queue.len(),
    decreases rounds.len(),
{
    if rounds.len() > 0 {
        let earlier = flat(rounds.drop_last());
        let round = rounds.last();
        let before = events + earlier;
        assert(events + flat(rounds) =~= before + round);
        lemma_possible_before(workers, before, round);
        lemma_possible_before(workers, events, earlier);
        lemma_no_crash_before(workers, before, round);
        lemma_one_claim_a_round(workers, events, rounds.drop_last());
        lemma_joined(earlier, round);
        if claimed(earlier).len() < Fleet::reached(workers, events).queue.len() {
            law_first_come_first_claimed(workers, events);
            law_first_come_first_claimed(workers, before);
            lemma_joined(events, earlier);
            let fleet = Fleet::reached(workers, before);
            assert(fleet.queue.len() > 0);
            let worker = choose|i: int|
                0 <= i < workers && (#[trigger] fleet.hands[i]).will_look() && step_count(round, i)
                    > fleet.hands[i].distance(sources(workers));
            lemma_looker_arrives(workers, before, round, worker);
        }
    }
}

pub(crate) proof fn lemma_joined<J>(events: Seq<Event<J>>, more: Seq<Event<J>>)
    ensures
        accepted(events + more) == accepted(events) + accepted(more),
        claimed(events + more) == claimed(events) + claimed(more),
    decreases more.len(),
{
    if more.len() == 0 {
        assert(events + more =~= events);
        assert(accepted(events) + accepted(more) =~= accepted(events));
        assert(claimed(events) + claimed(more) =~= claimed(events));
    } else {
        lemma_joined(events, more.drop_last());
        assert((events + more).drop_last() =~= events + more.drop_last());
        assert((events + more).last() == more.last());
        assert(accepted(events + more) =~= accepted(events) + accepted(more));
        assert(claimed(events + more) =~= claimed(events) + claimed(more));
    }
}

pub(crate) proof fn lemma_looker_arrives<J>(
    workers: nat,
    events: Seq<Event<J>>,
    more: Seq<Event<J>>,
    worker: int,
)
    requires
        0 < workers <= usize::MAX,
        Fleet::possible(workers, events + more),
        Fleet::reached(workers, events + more).crashed.len() == 0,
        Fleet::reached(workers, events).queue.len() > 0,
        0 <= worker < workers,
        Fleet::reached(workers, events).hands[worker].will_look(),
    ensures
        claimed(more).len() == 0 ==> ({
            let fleet = Fleet::reached(workers, events + more);
            &&& fleet.queue.len() > 0
            &&& fleet.hands[worker].will_look()
            &&& step_count(more, worker) + fleet.hands[worker].distance(sources(workers))
                <= Fleet::reached(workers, events).hands[worker].distance(sources(workers))
            &&& fleet.hands[worker].distance(sources(workers)) >= 0
        }),
    decreases more.len(),
{
    lemma_possible_before(workers, events, more);
    lemma_no_crash_before(workers, events, more);
    if more.len() == 0 {
        assert(events + more =~= events);
        law_always_sound(workers, events);
        let fleet = Fleet::reached(workers, events);
        assert(fleet.hands[worker].sound(workers, fleet.closed, false));
    } else {
        let earlier = more.drop_last();
        assert((events + more).drop_last() =~= events + earlier);
        assert((events + more).last() == more.last());
        assert(events + earlier + seq![more.last()] =~= events + more);
        lemma_no_crash_before(workers, events + earlier, seq![more.last()]);
        lemma_looker_arrives(workers, events, earlier, worker);
        law_always_sound(workers, events + earlier);
        if claimed(more).len() == 0 {
            let fleet = Fleet::reached(workers, events + earlier);
            lemma_distance(fleet, workers, more.last(), worker);
        }
    }
}

/// While jobs wait and none has panicked, some worker is sure to look.
pub proof fn law_somebody_looks<J>(workers: nat, events: Seq<Event<J>>)
    requires
        workers > 0,
        Fleet::possible(workers, events),
        Fleet::reached(workers, events).queue.len() > 0,
        Fleet::reached(workers, events).crashed.len() == 0,
    ensures
        exists|i: int|
            0 <= i < workers && (#[trigger] Fleet::reached(workers, events).hands[i]).will_look(),
{
    law_always_sound(workers, events);
}

proof fn lemma_one_more_completed<J>(events: Seq<Event<J>>, workers: nat)
    requires
        events.len() > 0,
    ensures
        completed(events, workers) == completed(events.drop_last(), workers) + if (
        events.last() matches Event::Finish(worker) && 0 <= worker < workers) {
            1nat
        } else {
            0nat
        },
    decreases workers,
{
    if workers > 0 {
        lemma_one_more_completed(events, (workers - 1) as nat);
    }
}

/// The counts add up: the workers have counted together as many completed jobs as were run to
/// their end.
pub proof fn law_counts_add_up<J>(workers: nat, events: Seq<Event<J>>)
    requires
        workers > 0,
        Fleet::possible(workers, events),
    ensures
        completed(events, workers) == Fleet::reached(workers, events).finished.len(),
    decreases events.len(),
{
    if events.len() == 0 {
        lemma_nothing_completed(events, workers);
    } else {
        let earlier = events.drop_last();
        law_counts_add_up(workers, earlier);
        law_always_sound(workers, earlier);
        lemma_one_more_completed(events, workers);
    }
}

proof fn lemma_nothing_completed<J>(events: Seq<Event<J>>, workers: nat)
    requires
        events.len() == 0,
    ensures
        completed(events, workers) == 0,
    decreases workers,
{
    if workers > 0 {
        lemma_nothing_completed(events, (workers - 1) as nat);
    }
}

proof fn lemma_accepted_count<J>(workers: nat, events: Seq<Event<J>>)
    ensures
        accepted(events).len() == Fleet::reached(workers, events).submitted.len(),
    decreases events.len(),
{
    if events.len() > 0 {
        lemma_accepted_count(workers, events.drop_last());
    }
}

/// Once all workers' threads have ended and some worker has not crashed, the workers have counted
/// together every accepted job that did not panic, and every job that was accepted was claimed, in
/// the order of acceptance.
pub proof fn law_all_counted_in_the_end<J>(workers: nat, events: Seq<Event<J>>)
    requires
        workers > 0,
        Fleet::possible(workers, events),
        Fleet::reached(workers, events).deserted(),
        Fleet::reached(workers, events).crashed.len() < workers,
    ensures
        completed(events, workers) == accepted(events).len() - Fleet::reached(
            workers,
            events,
        ).crashed.len(),
        claimed(events) == accepted(events),
{
    law_counts_add_up(workers, events);
    law_panics_spare_other_jobs(workers, events);
    law_first_come_first_claimed(workers, events);
    lemma_accepted_count(workers, events);
    assert(claimed(events) =~= accepted(events));
}

/// The workers that these events decide to wake for a job, in their order.
pub open spec fn called<J>(events: Seq<Event<J>>) -> Seq<int>
    decreases events.len(),
{
    if events.len() == 0 {
        Seq::empty()
    } else {
        match events.last() {
            Event::Submit(_, worker) => called(events.drop_last()).push(worker),
            _ => called(events.drop_last()),
        }
    }
}

/// A submission adds exactly this job, behind all jobs that wait, and decides to wake exactly one
/// worker.
pub proof fn law_a_submission_adds_one_job_and_calls_one_worker<J>(
    fleet: Fleet<J>,
    job: J,
    worker: int,
)
    requires
        fleet.allows(Event::Submit(job, worker)),
    ensures
        ({
            let next = fleet.after(Event::Submit(job, worker));
            &&& next.queue == fleet.queue.push(job)
            &&& next.locals == fleet.locals
            &&& next.submitted == fleet.submitted.insert(job)
            &&& next.hands[worker] == (Hand {
                owed: fleet.hands[worker].owed + 1,
                ..fleet.hands[worker]
            })
            &&& forall|i: int|
                0 <= i < fleet.hands.len() && i != worker ==> #[trigger] next.hands[i]
                    == fleet.hands[i]
        }),
{
}

/// Workers are called round-robin, whatever else happens in between: the job accepted as number
/// `k`, counted from zero, calls the worker `k % workers`.
pub proof fn law_workers_are_called_round_robin<J>(workers: nat, events: Seq<Event<J>>, k: int)
    requires
        workers > 0,
        Fleet::possible(workers, events),
        0 <= k < called(events).len(),
        k <= usize::MAX,
    ensures
        called(events).len() == accepted(events).len(),
        called(events)[k] == k % workers as int,
    decreases events.len(),
{
    let earlier = events.drop_last();
    lemma_tickets(workers, events);
    lemma_tickets(workers, earlier);
    if k < called(earlier).len() {
        law_workers_are_called_round_robin(workers, earlier, k);
    } else {
        law_always_sound(workers, earlier);
        vstd::arithmetic::div_mod::lemma_small_mod(k as nat, usize::MAX as nat + 1);
    }
}

proof fn lemma_tickets<J>(workers: nat, events: Seq<Event<J>>)
    ensures
        Fleet::reached(workers, events).tickets == called(events).len(),
        called(events).len() == accepted(events).len(),
    decreases events.len(),
{
    if events.len() > 0 {
        lemma_tickets(workers, events.drop_last());
    }
}

/// Of any `workers` jobs that are accepted in a row, each worker is called by exactly one.
pub proof fn law_each_worker_called_once_a_round<J>(
    workers: nat,
    events: Seq<Event<J>>,
    first: nat,
    worker: nat,
)
    requires
        worker < workers,
        Fleet::possible(workers, events),
        first + workers <= called(events).len(),
        first + workers <= usize::MAX,
    ensures
        ({
            let k = ticket_for(first as int, workers as int, worker as int);
            &&& first <= k < first + workers
            &&& called(events)[k] == worker
            &&& forall|other: int|
                first <= other < first + workers && #[trigger] called(events)[other] == worker
                    ==> other == k
        }),
{
    law_round_robin(first, workers, worker);
    let k = ticket_for(first as int, workers as int, worker as int);
    law_workers_are_called_round_robin(workers, events, k);
    assert forall|other: int|
        first <= other < first + workers && #[trigger] called(events)[other]
            == worker implies other == k by {
        law_workers_are_called_round_robin(workers, events, other);
        assert(wake_target(other, workers as int) == worker);
    }
}

} // verus!
