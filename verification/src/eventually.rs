//! What comes about in the end, if the threads are let run: every accepted job is run, once.
//!
//! A course of events that never ends is a function from numbers to events. It is [`fair`] if no
//! thread that can go on is kept from it for good: a worker that is not asleep takes further steps
//! until it has ended or sleeps, so its jobs come to an end and it does not lose every race; and
//! whoever has decided to wake a worker does so.
//!
//! A course that does end leaves no job waiting unless threads are kept from going on: while jobs
//! wait, [`law_looker_can_go_on`](crate::progress::law_looker_can_go_on) names an event that can
//! happen.

use vstd::prelude::*;

use crossbeam_deque::Steal;

use crate::lifecycle::{law_always_sound, Event, Fleet, Hand, Status};
use crate::progress::{
    accepted, claimed, law_claimed_job_runs_to_its_end, law_first_come_first_claimed,
    law_jobs_come_from_the_queue, law_no_job_waits_for_good, law_somebody_looks, lemma_joined,
    lemma_looker_arrives, step_count, steps,
};
use crate::search::sources;

verus! {

/// The first `n` events.
pub open spec fn prefix<J>(course: spec_fn(nat) -> Event<J>, n: nat) -> Seq<Event<J>> {
    Seq::new(n, |i: int| course(i as nat))
}

/// The pool before the event with the number `n`.
pub open spec fn at<J>(workers: nat, course: spec_fn(nat) -> Event<J>, n: nat) -> Fleet<J> {
    Fleet::reached(workers, prefix(course, n))
}

/// The events can happen in this order, without end.
pub open spec fn unending<J>(workers: nat, course: spec_fn(nat) -> Event<J>) -> bool {
    forall|n: nat| #[trigger] Fleet::possible(workers, prefix(course, n))
}

/// No job ever panics.
pub open spec fn calm<J>(workers: nat, course: spec_fn(nat) -> Event<J>) -> bool {
    forall|n: nat| (#[trigger] at(workers, course, n)).crashed.len() == 0
}

impl<J> Hand<J> {
    /// The worker's thread has ended, or sleeps and was not woken.
    pub open spec fn at_rest(self) -> bool {
        self.ended() || self.status is Parked && !self.token
    }
}

/// At time `n` the worker takes a step or rests.
pub open spec fn moves_or_rests<J>(
    workers: nat,
    course: spec_fn(nat) -> Event<J>,
    worker: int,
    n: nat,
) -> bool {
    steps(course(n), worker) || at(workers, course, n).hands[worker].at_rest()
}

/// The event with the number `n` wakes the worker.
pub open spec fn wakes<J>(course: spec_fn(nat) -> Event<J>, worker: int, n: nat) -> bool {
    course(n) == Event::<J>::Wake(worker)
}

/// No thread is kept from going on for good.
pub open spec fn fair<J>(workers: nat, course: spec_fn(nat) -> Event<J>) -> bool {
    &&& forall|worker: int, n: nat|
        #![trigger at(workers, course, n).hands[worker]]
        0 <= worker < workers ==> exists|m: nat|
            n <= m && #[trigger] moves_or_rests(workers, course, worker, m)
    &&& forall|worker: int, n: nat|
        0 <= worker < workers && (#[trigger] at(workers, course, n).hands[worker]).owed > 0
            ==> exists|m: nat| n <= m && #[trigger] wakes(course, worker, m)
}

/// The events from the number `n` up to, but without, the number `m`.
spec fn between<J>(course: spec_fn(nat) -> Event<J>, n: nat, m: nat) -> Seq<Event<J>> {
    Seq::new((m - n) as nat, |i: int| course((n + i) as nat))
}

proof fn lemma_between<J>(course: spec_fn(nat) -> Event<J>, n: nat, m: nat)
    requires
        n <= m,
    ensures
        prefix(course, m) == prefix(course, n) + between(course, n, m),
        between(course, n, m + 1) == between(course, n, m).push(course(m)),
        prefix(course, m + 1) == prefix(course, m).push(course(m)),
        prefix(course, m + 1).drop_last() == prefix(course, m),
        prefix(course, m + 1).last() == course(m),
        between(course, n, m + 1).drop_last() == between(course, n, m),
{
    assert(prefix(course, m) =~= prefix(course, n) + between(course, n, m));
    assert(between(course, n, m + 1) =~= between(course, n, m).push(course(m)));
    assert(prefix(course, m + 1) =~= prefix(course, m).push(course(m)));
    assert(prefix(course, m + 1).drop_last() =~= prefix(course, m));
    assert(between(course, n, m + 1).drop_last() =~= between(course, n, m));
}

/// What one event more does.
proof fn lemma_next<J>(workers: nat, course: spec_fn(nat) -> Event<J>, n: nat)
    requires
        workers > 0,
        unending(workers, course),
    ensures
        at(workers, course, n).allows(course(n)),
        at(workers, course, n + 1) == at(workers, course, n).after(course(n)),
        at(workers, course, n).sound(workers),
{
    lemma_between(course, 0, n);
    assert(Fleet::possible(workers, prefix(course, n + 1)));
    assert(Fleet::possible(workers, prefix(course, n)));
    law_always_sound(workers, prefix(course, n));
}

/// A worker that was woken stays woken until its next step.
proof fn lemma_token_kept<J>(
    workers: nat,
    course: spec_fn(nat) -> Event<J>,
    worker: int,
    n: nat,
    m: nat,
)
    requires
        workers > 0,
        unending(workers, course),
        0 <= worker < workers,
        n <= m,
        at(workers, course, n).hands[worker].token,
        forall|i: nat| n <= i < m ==> !steps(#[trigger] course(i), worker),
    ensures
        at(workers, course, m).hands[worker].token,
    decreases m - n,
{
    if n < m {
        lemma_next(workers, course, n);
        assert(!steps(course(n), worker));
        lemma_token_kept(workers, course, worker, n + 1, m);
    }
}

/// The steps of a stretch of time, and whether a job is claimed in it.
proof fn lemma_stretch<J>(course: spec_fn(nat) -> Event<J>, worker: int, n: nat, m: nat)
    requires
        n <= m,
    ensures
        step_count(between(course, n, m + 1), worker) == step_count(between(course, n, m), worker)
            + if steps(course(m), worker) {
            1nat
        } else {
            0nat
        },
        claimed(between(course, n, m)).len() <= claimed(between(course, n, m + 1)).len(),
{
    lemma_between(course, n, m);
}

proof fn lemma_stretches<J>(course: spec_fn(nat) -> Event<J>, worker: int, n: nat, m: nat, l: nat)
    requires
        n <= m <= l,
    ensures
        step_count(between(course, n, m), worker) <= step_count(between(course, n, l), worker),
        claimed(between(course, n, m)).len() <= claimed(between(course, n, l)).len(),
    decreases l - m,
{
    if m < l {
        lemma_stretch(course, worker, n, m);
        lemma_stretches(course, worker, n, m + 1, l);
    }
}

/// A worker that is sure to look takes a further step, if no job is claimed before.
proof fn lemma_looker_steps<J>(
    workers: nat,
    course: spec_fn(nat) -> Event<J>,
    worker: int,
    n: nat,
) -> (m: nat)
    requires
        0 < workers <= usize::MAX,
        unending(workers, course),
        calm(workers, course),
        fair(workers, course),
        0 <= worker < workers,
        at(workers, course, n).queue.len() > 0,
        at(workers, course, n).hands[worker].will_look(),
    ensures
        n <= m,
        steps(course(m), worker) || claimed(between(course, n, m)).len() > 0,
{
    let fleet = at(workers, course, n);
    assert(fleet.hands[worker] == fleet.hands[worker]);
    let first = choose|m: nat| n <= m && #[trigger] moves_or_rests(workers, course, worker, m);
    if steps(course(first), worker) {
        first
    } else if claimed(between(course, n, first)).len() > 0 {
        first
    } else {
        // Nothing was claimed, so the worker is still sure to look; since it rests, it sleeps,
        // and is owed a wake-up.
        lemma_still_looking(workers, course, worker, n, first);
        lemma_next(workers, course, first);
        let here = at(workers, course, first);
        assert(here.hands[worker].sound(workers, here.closed, here.queue.len() == 0));
        assert(here.hands[worker].owed > 0);
        let woken = choose|m: nat| first <= m && #[trigger] wakes(course, worker, m);
        lemma_next(workers, course, woken);
        let after = (woken + 1) as nat;
        assert(at(workers, course, after).hands[worker].token);
        let second = choose|m: nat|
            after <= m && #[trigger] moves_or_rests(workers, course, worker, m);
        if exists|i: nat| after <= i < second && steps(#[trigger] course(i), worker) {
            choose|i: nat| after <= i < second && steps(#[trigger] course(i), worker)
        } else {
            if !steps(course(second), worker) {
                lemma_token_kept(workers, course, worker, after, second);
                if claimed(between(course, n, second)).len() == 0 {
                    lemma_still_looking(workers, course, worker, n, second);
                    lemma_next(workers, course, second);
                    let there = at(workers, course, second);
                    assert(there.hands[worker].sound(
                        workers,
                        there.closed,
                        there.queue.len() == 0,
                    ));
                }
            }
            second
        }
    }
}

/// A worker that is sure to look stays so until a job is claimed.
proof fn lemma_still_looking<J>(
    workers: nat,
    course: spec_fn(nat) -> Event<J>,
    worker: int,
    n: nat,
    m: nat,
)
    requires
        0 < workers <= usize::MAX,
        unending(workers, course),
        calm(workers, course),
        0 <= worker < workers,
        n <= m,
        at(workers, course, n).queue.len() > 0,
        at(workers, course, n).hands[worker].will_look(),
        claimed(between(course, n, m)).len() == 0,
    ensures
        at(workers, course, m).queue.len() > 0,
        at(workers, course, m).hands[worker].will_look(),
{
    lemma_between(course, n, m);
    assert(Fleet::possible(workers, prefix(course, m)));
    assert(at(workers, course, m).crashed.len() == 0);
    lemma_looker_arrives(workers, prefix(course, n), between(course, n, m), worker);
}

/// A worker that is sure to look takes any number of steps, if no job is claimed before.
proof fn lemma_looker_goes_on<J>(
    workers: nat,
    course: spec_fn(nat) -> Event<J>,
    worker: int,
    n: nat,
    count: nat,
) -> (m: nat)
    requires
        0 < workers <= usize::MAX,
        unending(workers, course),
        calm(workers, course),
        fair(workers, course),
        0 <= worker < workers,
        at(workers, course, n).queue.len() > 0,
        at(workers, course, n).hands[worker].will_look(),
    ensures
        n <= m,
        step_count(between(course, n, m), worker) >= count || claimed(
            between(course, n, m),
        ).len() > 0,
    decreases count,
{
    if count == 0 {
        n
    } else {
        let before = lemma_looker_goes_on(workers, course, worker, n, (count - 1) as nat);
        if claimed(between(course, n, before)).len() > 0 {
            before
        } else {
            lemma_still_looking(workers, course, worker, n, before);
            let step = lemma_looker_steps(workers, course, worker, before);
            if steps(course(step), worker) {
                lemma_stretches(course, worker, n, before, step);
                lemma_stretch(course, worker, n, step);
                (step + 1) as nat
            } else {
                assert(between(course, n, step) =~= between(course, n, before) + between(
                    course,
                    before,
                    step,
                ));
                lemma_joined(between(course, n, before), between(course, before, step));
                step
            }
        }
    }
}

/// As long as jobs wait, a further job is claimed.
proof fn lemma_one_more_claimed<J>(
    workers: nat,
    course: spec_fn(nat) -> Event<J>,
    n: nat,
) -> (m: nat)
    requires
        0 < workers <= usize::MAX,
        unending(workers, course),
        calm(workers, course),
        fair(workers, course),
        at(workers, course, n).queue.len() > 0,
    ensures
        n <= m,
        claimed(prefix(course, m)).len() > claimed(prefix(course, n)).len(),
{
    assert(Fleet::possible(workers, prefix(course, n)));
    assert(at(workers, course, n).crashed.len() == 0);
    law_somebody_looks(workers, prefix(course, n));
    let fleet = at(workers, course, n);
    let worker = choose|i: int| 0 <= i < workers && (#[trigger] fleet.hands[i]).will_look();
    lemma_next(workers, course, n);
    assert(fleet.hands[worker].sound(workers, fleet.closed, false));
    let distance = fleet.hands[worker].distance(sources(workers));
    let m = lemma_looker_goes_on(workers, course, worker, n, (distance + 1) as nat);
    lemma_between(course, n, m);
    lemma_joined(prefix(course, n), between(course, n, m));
    assert(Fleet::possible(workers, prefix(course, m)));
    assert(at(workers, course, m).crashed.len() == 0);
    if claimed(between(course, n, m)).len() == 0 {
        law_no_job_waits_for_good(workers, prefix(course, n), between(course, n, m), worker);
    }
    m
}

/// Every accepted job is claimed.
proof fn lemma_claimed_in_the_end<J>(
    workers: nat,
    course: spec_fn(nat) -> Event<J>,
    n: nat,
    k: nat,
) -> (m: nat)
    requires
        0 < workers <= usize::MAX,
        unending(workers, course),
        calm(workers, course),
        fair(workers, course),
        k < accepted(prefix(course, n)).len(),
    ensures
        n <= m,
        claimed(prefix(course, m)).len() > k,
    decreases k + 1 - claimed(prefix(course, n)).len(),
{
    if claimed(prefix(course, n)).len() > k {
        n
    } else {
        assert(Fleet::possible(workers, prefix(course, n)));
        law_first_come_first_claimed(workers, prefix(course, n));
        let next = lemma_one_more_claimed(workers, course, n);
        lemma_between(course, n, next);
        lemma_joined(prefix(course, n), between(course, n, next));
        if claimed(prefix(course, next)).len() > k {
            next
        } else {
            lemma_claimed_in_the_end(workers, course, next, k)
        }
    }
}

/// If `k` jobs or fewer were claimed first and more than `k` in the end, then at some time in
/// between the one with the number `k` was claimed.
proof fn lemma_time_of_claim<J>(course: spec_fn(nat) -> Event<J>, k: nat, m: nat) -> (found: (
    nat,
    int,
    J,
))
    requires
        claimed(prefix(course, m)).len() > k,
    ensures
        found.0 < m,
        claimed(prefix(course, found.0)).len() == k,
        course(found.0) == Event::Probe(found.1, Steal::Success(found.2)),
        claimed(prefix(course, found.0 + 1)) == claimed(prefix(course, found.0)).push(found.2),
    decreases m,
{
    assert(m > 0) by {
        assert(prefix(course, 0) =~= Seq::empty());
    }
    let before = (m - 1) as nat;
    lemma_between(course, 0, before);
    if claimed(prefix(course, before)).len() > k {
        lemma_time_of_claim(course, k, before)
    } else {
        let worker = course(before)->Probe_0;
        let answer = course(before)->Probe_1;
        let job = claimed(prefix(course, m)).last();
        assert(answer == Steal::Success(job));
        (before, worker, job)
    }
}

/// The worker runs the job from the event with the number `n` on, and ends it by the event with
/// the number `m`.
pub open spec fn runs_between<J>(
    workers: nat,
    course: spec_fn(nat) -> Event<J>,
    worker: int,
    job: J,
    n: nat,
    m: nat,
) -> bool {
    &&& 0 <= worker < workers
    &&& n < m
    &&& course(n) == Event::Probe(worker, Steal::Success(job))
    &&& course(m) == Event::<J>::Finish(worker)
    &&& forall|i: nat|
        n < i <= m ==> (#[trigger] at(workers, course, i)).hands[worker].status
            == Status::Running(job)
}

proof fn lemma_runs_to_its_end<J>(
    workers: nat,
    course: spec_fn(nat) -> Event<J>,
    worker: int,
    job: J,
    n: nat,
    limit: nat,
) -> (m: nat)
    requires
        workers > 0,
        unending(workers, course),
        calm(workers, course),
        0 <= worker < workers,
        n <= limit,
        at(workers, course, n).hands[worker].status == Status::Running(job),
        moves_or_rests(workers, course, worker, limit),
    ensures
        n <= m,
        course(m) == Event::<J>::Finish(worker),
        forall|i: nat|
            n <= i <= m ==> (#[trigger] at(workers, course, i)).hands[worker].status
                == Status::Running(job),
    decreases limit - n,
{
    lemma_next(workers, course, n);
    if course(n) == Event::<J>::Finish(worker) {
        n
    } else {
        let fleet = at(workers, course, n);
        assert(course(n) != Event::<J>::Crash(worker)) by {
            assert(at(workers, course, n + 1).crashed.len() == 0);
            assert(fleet.crashed.insert(job).len() == fleet.crashed.len() + 1);
        }
        law_claimed_job_runs_to_its_end(fleet, worker, job, course(n));
        let m = lemma_runs_to_its_end(workers, course, worker, job, n + 1, limit);
        assert forall|i: nat| n <= i <= m implies (#[trigger] at(
            workers,
            course,
            i,
        )).hands[worker].status == Status::Running(job) by {
            if i > n {
                assert(n + 1 <= i);
            }
        }
        m
    }
}

/// Every accepted job is run, exactly once, by one of the workers: if no job panics and no thread
/// is kept from going on for good, then of the job that was accepted as number `k` there is a time
/// at which a worker claims it and a later time at which that worker has run it to its end, it is
/// the claim with the number `k`, and all claims before it are of the jobs that were accepted
/// before it. Nothing needs to be submitted or shut down for that.
pub proof fn law_every_accepted_job_is_run<J>(
    workers: nat,
    course: spec_fn(nat) -> Event<J>,
    n: nat,
    k: nat,
)
    requires
        0 < workers <= usize::MAX,
        unending(workers, course),
        calm(workers, course),
        fair(workers, course),
        k < accepted(prefix(course, n)).len(),
    ensures
        exists|worker: int, start: nat, end: nat|
            {
                &&& #[trigger] runs_between(
                    workers,
                    course,
                    worker,
                    accepted(prefix(course, n))[k as int],
                    start,
                    end,
                )
                &&& claimed(prefix(course, start)) == accepted(prefix(course, n)).take(k as int)
            },
{
    let m = lemma_claimed_in_the_end(workers, course, n, k);
    let (start, worker, job) = lemma_time_of_claim(course, k, m);
    let known = accepted(prefix(course, n));

    lemma_between(course, n, m);
    lemma_joined(prefix(course, n), between(course, n, m));
    lemma_between(course, start + 1, m);
    lemma_joined(prefix(course, start + 1), between(course, (start + 1) as nat, m));
    assert(Fleet::possible(workers, prefix(course, m)));
    assert(Fleet::possible(workers, prefix(course, start)));
    law_first_come_first_claimed(workers, prefix(course, m));
    let all = accepted(prefix(course, m));
    assert(all.take(known.len() as int) =~= known);
    assert(claimed(prefix(course, m)) =~= all.take(claimed(prefix(course, m)).len() as int));
    assert(claimed(prefix(course, start + 1)) =~= all.take(k as int + 1));
    assert(claimed(prefix(course, start)) =~= known.take(k as int)) by {
        assert forall|i: int| 0 <= i < k implies claimed(prefix(course, start))[i] == known[i] by {
            assert(claimed(prefix(course, start + 1))[i] == all[i]);
            assert(all[i] == all.take(known.len() as int)[i]);
        }
    }
    assert(job == known[k as int]) by {
        assert(claimed(prefix(course, start + 1))[k as int] == all[k as int]);
        assert(all[k as int] == all.take(known.len() as int)[k as int]);
    }

    lemma_next(workers, course, start);
    law_jobs_come_from_the_queue(workers, prefix(course, start), worker, Steal::Success(job));
    let after = (start + 1) as nat;
    assert(at(workers, course, after).hands[worker].status == Status::Running(job));
    let limit = choose|i: nat| after <= i && #[trigger] moves_or_rests(workers, course, worker, i);
    let end = lemma_runs_to_its_end(workers, course, worker, job, after, limit);
    assert(runs_between(workers, course, worker, known[k as int], start, end)) by {
        assert forall|i: nat| start < i <= end implies (#[trigger] at(
            workers,
            course,
            i,
        )).hands[worker].status == Status::Running(job) by {
            assert(after <= i);
        }
    }
}

} // verus!
