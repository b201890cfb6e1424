//! How the calls that pool and workers record make up the events of the pool's life.

use vstd::prelude::*;

use crossbeam_deque::Steal;

use crate::entry::journal::Call;
use crate::error::PoolError;
use crate::lifecycle::{law_always_sound, may_answer, obeyed, Event, Fleet};
use crate::patrol::{Patrol, Step};
use crate::pool::Pool;
use crate::search::Source;
use crate::station::Station;

verus! {

/// How many of the events end a job of `worker`.
pub open spec fn finishes<J>(events: Seq<Event<J>>, worker: int) -> nat
    decreases events.len(),
{
    if events.len() == 0 {
        0
    } else {
        finishes(events.drop_last(), worker) + if events.last() == Event::<J>::Finish(worker) {
            1nat
        } else {
            0nat
        }
    }
}

impl<J> Station<J> {
    /// The call by which the source gives this answer.
    pub open spec fn call_for(&self, source: Source, answer: Steal<J>) -> Call<J> {
        match source {
            Source::Own => Call::Popped(
                self.own(),
                match answer {
                    Steal::Success(job) => Some(job),
                    _ => None,
                },
            ),
            Source::Global => Call::Stole(self.global(), answer),
            Source::Peer(i) => Call::Robbed(self.peers()[i as int], answer),
        }
    }

    /// The calls that `worker` makes from this station in the course of these events, which begin
    /// with a fresh pool of as many workers as the station has peers.
    pub open spec fn logged(&self, worker: int, events: Seq<Event<J>>) -> Seq<Call<J>>
        decreases events.len(),
    {
        if events.len() == 0 {
            Seq::empty()
        } else {
            let earlier = events.drop_last();
            let calls = self.logged(worker, earlier);
            let fleet = Fleet::reached(self.peers().len(), earlier);
            match events.last() {
                Event::Look(who) if who == worker => calls.push(
                    Call::Loaded(self.flag(), fleet.closed),
                ),
                Event::Probe(who, answer) if who == worker => calls.push(
                    self.call_for(fleet.hands[worker].patrol.sweep->0.at, answer),
                ),
                Event::Finish(who) if who == worker => calls.push(
                    Call::Added(self.counter(), 1, finishes(earlier, worker) as usize),
                ),
                _ => calls,
            }
        }
    }

    /// The event of which this call is the trace, for a worker that stands at `patrol`.
    pub open spec fn event_of(&self, worker: int, patrol: Patrol, call: Call<J>) -> Event<J> {
        match patrol.sweep {
            None => Event::Look(worker),
            Some(sweep) => Event::Probe(worker, self.answer_in(sweep.at, call)->0),
        }
    }

    /// What the call has answered is true of the pool in this state.
    pub open spec fn answered_truly(&self, worker: int, fleet: Fleet<J>, call: Call<J>) -> bool {
        match fleet.hands[worker].patrol.sweep {
            None => call matches Call::Loaded(_, closed) && closed == fleet.closed,
            Some(sweep) => self.answer_in(sweep.at, call) matches Some(answer) && may_answer(
                sweep.at,
                fleet.jobs_at(worker, sweep.at),
                answer,
            ),
        }
    }
}

impl<J> Fleet<J> {
    /// The state that the pool itself keeps agrees with this.
    pub open spec fn mirrors(self, pool: &Pool<J>) -> bool {
        &&& self.hands.len() == pool.size()
        &&& self.closed == pool.is_closed()
    }
}

/// Every call that is due of a searching worker is an event of the pool: if it is answered truly,
/// the event can happen, and it leaves the worker where the call leaves it, doing what it was
/// told. [`Worker::turn`](crate::Worker::turn) makes only calls that are due.
pub proof fn law_due_calls_are_events<J>(
    fleet: Fleet<J>,
    station: Station<J>,
    worker: int,
    call: Call<J>,
    after: Patrol,
    step: Step<J>,
)
    requires
        fleet.employs(worker),
        fleet.hands[worker].status is Searching,
        station.peers().len() == fleet.hands.len(),
        station.step(fleet.hands[worker].patrol, call) == Some((after, step)),
        station.answered_truly(worker, fleet, call),
    ensures
        ({
            let event = station.event_of(worker, fleet.hands[worker].patrol, call);
            let next = fleet.after(event);
            &&& fleet.allows(event)
            &&& next.hands[worker].patrol == after
            &&& next.hands[worker].status == obeyed(step)
        }),
{
}

/// Counting a completed job is the event that the job ends: it can happen while the worker runs a
/// job, and it leaves the worker where the call leaves it.
pub proof fn law_counting_is_the_end_of_a_job<J>(
    fleet: Fleet<J>,
    station: Station<J>,
    worker: int,
    call: Call<J>,
)
    requires
        fleet.employs(worker),
        fleet.hands[worker].status is Running,
        station.counts_one(call),
    ensures
        fleet.allows(Event::Finish(worker)),
        station.lived(fleet.hands[worker].patrol, call) == Some(
            fleet.after(Event::Finish(worker)).hands[worker].patrol,
        ),
        fleet.after(Event::Finish(worker)).hands[worker].status is Searching,
{
}

/// The events of a worker leave the record of a dutiful worker: in every possible course of
/// events, the calls that they are made of are those that are due, from the time the worker
/// joined, and they lead to where the worker stands.
pub proof fn law_events_leave_due_calls<J>(
    station: Station<J>,
    events: Seq<Event<J>>,
    worker: int,
)
    requires
        Fleet::possible(station.peers().len(), events),
        0 <= worker < station.peers().len(),
    ensures
        station.life(station.logged(worker, events)) == Some(
            Fleet::reached(station.peers().len(), events).hands[worker].patrol,
        ),
    decreases events.len(),
{
    if events.len() > 0 {
        let earlier = events.drop_last();
        law_events_leave_due_calls(station, earlier, worker);
        law_always_sound(station.peers().len(), earlier);
        let fleet = Fleet::reached(station.peers().len(), earlier);
        let hand = fleet.hands[worker];
        let before = station.logged(worker, earlier);
        let calls = station.logged(worker, events);
        match events.last() {
            Event::Look(who) if who == worker => {
                assert(calls.drop_last() =~= before);
            },
            Event::Probe(who, answer) if who == worker => {
                assert(calls.drop_last() =~= before);
                let at = hand.patrol.sweep->0.at;
                assert(station.answer_in(at, station.call_for(at, answer)) == Some(answer));
            },
            Event::Finish(who) if who == worker => {
                assert(calls.drop_last() =~= before);
                assert(station.counts_one(calls.last()));
            },
            _ => {
                assert(calls == before);
            },
        }
    }
}

/// The pool accepts a job exactly when a submission can happen, and if the ticket is the one that
/// is due, the worker that it names is the one that the submission decides to wake. A job that is
/// refused is not pushed, and no ticket is drawn for it.
pub proof fn law_submissions_follow_the_events<J>(
    fleet: Fleet<J>,
    pool: Pool<J>,
    job: J,
    calls: Seq<Call<J>>,
    submitted: Result<usize, PoolError>,
)
    requires
        fleet.mirrors(&pool),
        pool.submission(job, calls, submitted),
        submitted is Ok ==> pool.draws(calls[1], fleet.ticket()),
    ensures
        match submitted {
            Ok(worker) => {
                &&& fleet.allows(Event::Submit(job, worker as int))
                &&& fleet.after(Event::Submit(job, worker as int)).mirrors(&pool)
                &&& calls.contains(Call::Pushed(pool.queue(), job))
            },
            Err(_) => {
                &&& forall|any: J, worker: int| !#[trigger] fleet.allows(
                    Event::Submit(any, worker),
                )
                &&& calls.len() == 0
            },
        },
{
    if submitted is Ok {
        assert(calls[0] == Call::Pushed(pool.queue(), job));
    }
}

/// Shutting the pool down is the event that closes it.
pub proof fn law_shutdown_follows_the_event<J>(
    fleet: Fleet<J>,
    before: Pool<J>,
    after: Pool<J>,
)
    requires
        fleet.mirrors(&before),
        fleet.allows(Event::Close),
        before.closes_as(&after),
    ensures
        fleet.after(Event::Close).mirrors(&after),
{
}

} // verus!
