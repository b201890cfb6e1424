//! The life of a pool as a whole, from the first submission to the last worker's leaving.
//!
//! A [`Fleet`] is the state of all threads of a pool between two atomic operations. An
//! [`Event`] is one such operation: a push onto the queue, one wake-up, one read of the shutdown
//! flag, one attempt to take a job from one queue, and so on. The threads run at their own pace,
//! so the events of different threads may follow one another in any order that the state allows.
//! What holds after every such course of events holds of a pool whose threads behave so.
//!
//! That the functions of this crate behave so is shown in [`trace`](crate::trace): the calls that
//! a [`Worker`](crate::Worker) records are the events of its thread, in their order. What is
//! taken for granted is how queues, flag, tickets and wake-ups answer: as in [`may_answer`] and
//! [`Fleet::allows`], in one order of events that all threads agree on.
//!
//! A job may panic. Its worker's thread then ends on the spot, which is the event
//! [`Event::Crash`]; the others go on.

use vstd::multiset::Multiset;
use vstd::prelude::*;

use crossbeam_deque::Steal;

use crate::dispatch::wake_target;
use crate::patrol::{Action, Patrol, Step};
use crate::search::{sources, Source};

verus! {

/// What a worker's thread is doing.
pub enum Status<J> {
    /// It searches for a job.
    Searching,
    /// It runs this job.
    Running(J),
    /// It sleeps.
    Parked,
    /// It has left: it was told to, and has ended.
    Gone,
    /// It has ended by the panic of a job.
    Crashed,
}

/// A worker as the other threads affect it.
pub struct Hand<J> {
    /// How far it has come in its search.
    pub patrol: Patrol,
    /// What its thread is doing.
    pub status: Status<J>,
    /// It was woken since it last slept, so that its next sleep ends at once.
    pub token: bool,
    /// The wake-ups that other threads have decided on but not yet given.
    pub owed: nat,
}

/// A pool with all its threads.
#[verifier::reject_recursive_types(J)]
pub struct Fleet<J> {
    /// The queue that jobs are submitted to, oldest first.
    pub queue: Seq<J>,
    /// The workers' own queues, oldest first.
    pub locals: Seq<Seq<J>>,
    /// The workers.
    pub hands: Seq<Hand<J>>,
    /// The pool is shutting down.
    pub closed: bool,
    /// The jobs that were accepted.
    pub submitted: Multiset<J>,
    /// The jobs that were run to their end.
    pub finished: Multiset<J>,
    /// The jobs that panicked.
    pub crashed: Multiset<J>,
    /// How many tickets were drawn.
    pub tickets: nat,
}

/// An atomic operation of one of the threads.
#[verifier::reject_recursive_types(J)]
pub enum Event<J> {
    /// A submission pushes a job and decides to wake a worker.
    Submit(J, int),
    /// A worker is woken.
    Wake(int),
    /// The pool is closed, which decides to wake all workers.
    Close,
    /// A worker begins a search by reading the shutdown flag.
    Look(int),
    /// A worker asks a queue for a job and gets this answer.
    Probe(int, Steal<J>),
    /// A worker's job ends.
    Finish(int),
    /// A worker's job panics, and the worker's thread ends with it.
    Crash(int),
    /// A worker's sleep ends, be it without cause.
    Unpark(int),
}

/// A queue may give this answer when it holds these jobs. The owner takes the newest job, all
/// others take the oldest; only those others may have to retry.
pub open spec fn may_answer<J>(source: Source, jobs: Seq<J>, answer: Steal<J>) -> bool {
    match answer {
        Steal::Success(job) => jobs.len() > 0 && job == if source == Source::Own {
            jobs.last()
        } else {
            jobs.first()
        },
        Steal::Empty => jobs.len() == 0,
        Steal::Retry => source != Source::Own,
    }
}

/// What a queue holds after it has given this answer.
pub open spec fn remains<J>(source: Source, jobs: Seq<J>, answer: Steal<J>) -> Seq<J> {
    match answer {
        Steal::Success(_) => if source == Source::Own {
            jobs.drop_last()
        } else {
            jobs.drop_first()
        },
        _ => jobs,
    }
}

/// What a thread is doing after a step of its search, once it does what it was told.
pub open spec fn obeyed<J>(step: Step<J>) -> Status<J> {
    match step {
        Step::On | Step::Done(Action::Again | Action::Spin) => Status::Searching,
        Step::Done(Action::Run(job)) => Status::Running(job),
        Step::Done(Action::Park) => Status::Parked,
        Step::Done(Action::Leave) => Status::Gone,
    }
}

impl<J> Hand<J> {
    /// A worker that has just joined.
    pub open spec fn fresh() -> Hand<J> {
        Hand { patrol: Patrol::fresh(), status: Status::Searching, token: false, owed: 0 }
    }

    /// The worker is sure to ask the global queue again, or is busy with a job and will ask
    /// afterwards.
    pub open spec fn will_look(self) -> bool {
        &&& !(self.status is Crashed)
        &&& {
            ||| self.owed > 0
            ||| self.token
            ||| self.status is Running
            ||| self.status is Searching && (self.patrol.sweep matches Some(sweep)
                ==> sweep.at.place() <= Source::Global.place())
        }
    }

    /// The worker's thread has ended.
    pub open spec fn ended(self) -> bool {
        self.status is Gone || self.status is Crashed
    }

    /// The worker has ended, or is sure to learn that the pool is closed.
    pub open spec fn will_leave(self) -> bool {
        ||| self.owed > 0
        ||| self.token
        ||| self.ended()
        ||| self.status is Running
        ||| self.status is Searching && (self.patrol.sweep matches Some(sweep) ==> sweep.closing)
    }

    /// The worker sleeps and nothing is about to wake it.
    pub open spec fn asleep(self) -> bool {
        self.status is Parked && !self.token && self.owed == 0
    }

    /// What is true of a worker in a pool of `peers` workers. `drained` says that the global
    /// queue is empty.
    pub open spec fn sound(self, peers: nat, closed: bool, drained: bool) -> bool {
        &&& self.patrol.sweep matches Some(sweep) ==> {
            &&& self.status is Searching
            &&& sweep.at.exists_among(peers)
            &&& sweep.closing ==> closed
            &&& sweep.closing && sweep.at.place() > Source::Global.place() ==> drained
        }
        &&& self.status is Gone ==> closed && drained
        &&& closed ==> self.will_leave()
    }

    /// A bound on what the worker can still do in a closed pool with `sources` queues, jobs that
    /// it may yet take not counted.
    pub open spec fn work(self, sources: int) -> int {
        self.owed + match self.status {
            Status::Gone => 0,
            Status::Crashed => 0,
            Status::Running(_) => sources + 2,
            Status::Parked => sources + 2,
            Status::Searching => match self.patrol.sweep {
                None => sources + 1,
                Some(sweep) => if sweep.closing {
                    sources - sweep.at.place()
                } else {
                    sources + 2 + sources - sweep.at.place()
                },
            },
        }
    }

    /// The job that the worker runs, if any.
    pub open spec fn job(self) -> Multiset<J> {
        match self.status {
            Status::Running(job) => Multiset::singleton(job),
            _ => Multiset::empty(),
        }
    }
}

/// The jobs that these workers run.
pub open spec fn running<J>(hands: Seq<Hand<J>>) -> Multiset<J>
    decreases hands.len(),
{
    if hands.len() == 0 {
        Multiset::empty()
    } else {
        running(hands.drop_last()).add(hands.last().job())
    }
}

/// How many of these workers have crashed.
pub open spec fn crashes<J>(hands: Seq<Hand<J>>) -> nat
    decreases hands.len(),
{
    if hands.len() == 0 {
        0
    } else {
        crashes(hands.drop_last()) + if hands.last().status is Crashed {
            1nat
        } else {
            0nat
        }
    }
}

/// A bound on what these workers can still do in a closed pool with `sources` queues.
pub open spec fn total_work<J>(hands: Seq<Hand<J>>, sources: int) -> int
    decreases hands.len(),
{
    if hands.len() == 0 {
        0
    } else {
        total_work(hands.drop_last(), sources) + hands.last().work(sources)
    }
}

impl<J> Fleet<J> {
    /// A pool of `workers` workers to which no job has been submitted.
    pub open spec fn fresh(workers: nat) -> Fleet<J> {
        Fleet {
            queue: Seq::empty(),
            locals: Seq::new(workers, |i: int| Seq::empty()),
            hands: Seq::new(workers, |i: int| Hand::fresh()),
            closed: false,
            submitted: Multiset::empty(),
            finished: Multiset::empty(),
            crashed: Multiset::empty(),
            tickets: 0,
        }
    }

    /// The ticket that is drawn next. The counter of tickets wraps.
    pub open spec fn ticket(self) -> usize {
        (self.tickets % (usize::MAX as nat + 1)) as usize
    }

    /// The worker exists.
    pub open spec fn employs(self, worker: int) -> bool {
        0 <= worker < self.hands.len()
    }

    /// The jobs in the queue that `worker` reaches as `source`.
    pub open spec fn jobs_at(self, worker: int, source: Source) -> Seq<J> {
        match source {
            Source::Own => self.locals[worker],
            Source::Global => self.queue,
            Source::Peer(i) => self.locals[i as int],
        }
    }

    /// The same pool with other jobs in the queue that `worker` reaches as `source`.
    pub open spec fn with_jobs_at(self, worker: int, source: Source, jobs: Seq<J>) -> Fleet<J> {
        match source {
            Source::Own => Fleet { locals: self.locals.update(worker, jobs), ..self },
            Source::Global => Fleet { queue: jobs, ..self },
            Source::Peer(i) => Fleet { locals: self.locals.update(i as int, jobs), ..self },
        }
    }

    /// The same pool with another state of `worker`.
    pub open spec fn with_hand(self, worker: int, hand: Hand<J>) -> Fleet<J> {
        Fleet { hands: self.hands.update(worker, hand), ..self }
    }

    /// The event can happen now.
    ///
    /// A closed pool accepts no job. Closing takes the pool out of the hands of all submitters,
    /// so it cannot happen while one of them has yet to wake a worker.
    pub open spec fn allows(self, event: Event<J>) -> bool {
        match event {
            Event::Submit(_, worker) => {
                &&& !self.closed
                &&& self.employs(worker)
                &&& worker == wake_target(self.ticket() as int, self.hands.len() as int)
            },
            Event::Wake(worker) => self.employs(worker) && self.hands[worker].owed > 0,
            Event::Close => !self.closed && forall|i: int|
                0 <= i < self.hands.len() ==> (#[trigger] self.hands[i]).owed == 0,
            Event::Look(worker) => {
                &&& self.employs(worker)
                &&& self.hands[worker].status is Searching
                &&& self.hands[worker].patrol.sweep is None
            },
            Event::Probe(worker, answer) => {
                &&& self.employs(worker)
                &&& self.hands[worker].status is Searching
                &&& self.hands[worker].patrol.sweep matches Some(sweep) && may_answer(
                    sweep.at,
                    self.jobs_at(worker, sweep.at),
                    answer,
                )
            },
            Event::Finish(worker) => self.employs(worker)
                && self.hands[worker].status is Running,
            Event::Crash(worker) => self.employs(worker)
                && self.hands[worker].status is Running,
            Event::Unpark(worker) => self.employs(worker) && self.hands[worker].status is Parked,
        }
    }

    /// The pool after the event.
    pub open spec fn after(self, event: Event<J>) -> Fleet<J> {
        match event {
            Event::Submit(job, worker) => {
                let hand = self.hands[worker];
                Fleet {
                    queue: self.queue.push(job),
                    submitted: self.submitted.insert(job),
                    tickets: self.tickets + 1,
                    ..self.with_hand(worker, Hand { owed: hand.owed + 1, ..hand })
                }
            },
            Event::Wake(worker) => {
                let hand = self.hands[worker];
                self.with_hand(
                    worker,
                    Hand { owed: (hand.owed - 1) as nat, token: true, ..hand },
                )
            },
            Event::Close => Fleet {
                closed: true,
                hands: self.hands.map_values(|hand: Hand<J>| Hand { owed: 1, ..hand }),
                ..self
            },
            Event::Look(worker) => {
                let hand = self.hands[worker];
                self.with_hand(worker, Hand { patrol: hand.patrol.begun(self.closed), ..hand })
            },
            Event::Probe(worker, answer) => {
                let hand = self.hands[worker];
                let at = hand.patrol.sweep->0.at;
                let (patrol, step) = hand.patrol.advanced(self.hands.len(), answer);
                self.with_jobs_at(
                    worker,
                    at,
                    remains(at, self.jobs_at(worker, at), answer),
                ).with_hand(worker, Hand { patrol, status: obeyed(step), ..hand })
            },
            Event::Finish(worker) => {
                let hand = self.hands[worker];
                Fleet {
                    finished: self.finished.insert(hand.status->Running_0),
                    ..self.with_hand(
                        worker,
                        Hand { patrol: hand.patrol.rested(), status: Status::Searching, ..hand },
                    )
                }
            },
            Event::Crash(worker) => {
                let hand = self.hands[worker];
                Fleet {
                    crashed: self.crashed.insert(hand.status->Running_0),
                    ..self.with_hand(worker, Hand { status: Status::Crashed, ..hand })
                }
            },
            Event::Unpark(worker) => {
                let hand = self.hands[worker];
                self.with_hand(
                    worker,
                    Hand { status: Status::Searching, token: false, ..hand },
                )
            },
        }
    }

    /// The events can happen in this order, beginning with a fresh pool of `workers` workers.
    pub open spec fn possible(workers: nat, events: Seq<Event<J>>) -> bool
        decreases events.len(),
    {
        events.len() > 0 ==> Self::possible(workers, events.drop_last()) && Self::reached(
            workers,
            events.drop_last(),
        ).allows(events.last())
    }

    /// The pool after the events, beginning with a fresh pool of `workers` workers.
    pub open spec fn reached(workers: nat, events: Seq<Event<J>>) -> Fleet<J>
        decreases events.len(),
    {
        if events.len() == 0 {
            Self::fresh(workers)
        } else {
            Self::reached(workers, events.drop_last()).after(events.last())
        }
    }

    /// The jobs that are in the queue, are being run, or have been run, be it to a panic.
    pub open spec fn known(self) -> Multiset<J> {
        self.queue.to_multiset().add(running(self.hands)).add(self.finished).add(self.crashed)
    }

    /// Every accepted job is in the queue, is being run, or has been run, and only once.
    pub open spec fn accounted(self) -> bool {
        self.submitted == self.known()
    }

    /// If a job waits in the queue, some worker is sure to look there, unless a job has panicked.
    pub open spec fn attended(self) -> bool {
        self.queue.len() > 0 && self.crashed.len() == 0 ==> exists|i: int|
            0 <= i < self.hands.len() && (#[trigger] self.hands[i]).will_look()
    }

    /// What is true of a pool of `workers` workers at all times.
    pub open spec fn sound(self, workers: nat) -> bool {
        &&& self.hands.len() == workers
        &&& self.locals.len() == workers
        &&& forall|i: int| 0 <= i < workers ==> (#[trigger] self.locals[i]).len() == 0
        &&& forall|i: int|
            0 <= i < workers ==> (#[trigger] self.hands[i]).sound(
                workers,
                self.closed,
                self.queue.len() == 0,
            )
        &&& crashes(self.hands) == self.crashed.len()
        &&& self.accounted()
        &&& self.attended()
    }

    /// A bound on the number of events that can still happen in a closed pool.
    pub open spec fn work(self) -> int {
        4 * self.queue.len() + total_work(self.hands, sources(self.hands.len()))
    }

    /// What the worker does next, if it has not left: the wake-ups it is owed come first.
    pub open spec fn next_event(self, worker: int) -> Event<J> {
        let hand = self.hands[worker];
        if hand.owed > 0 {
            Event::Wake(worker)
        } else {
            match hand.status {
                Status::Running(_) => Event::Finish(worker),
                Status::Parked => Event::Unpark(worker),
                _ => match hand.patrol.sweep {
                    None => Event::Look(worker),
                    Some(sweep) => {
                        let jobs = self.jobs_at(worker, sweep.at);
                        if jobs.len() == 0 {
                            Event::Probe(worker, Steal::Empty)
                        } else if sweep.at == Source::Own {
                            Event::Probe(worker, Steal::Success(jobs.last()))
                        } else {
                            Event::Probe(worker, Steal::Success(jobs.first()))
                        }
                    },
                },
            }
        }
    }

    /// The threads of all workers have ended.
    pub open spec fn deserted(self) -> bool {
        forall|i: int| 0 <= i < self.hands.len() ==> (#[trigger] self.hands[i]).ended()
    }
}

proof fn lemma_running_update<J>(hands: Seq<Hand<J>>, worker: int, hand: Hand<J>)
    requires
        0 <= worker < hands.len(),
    ensures
        running(hands.update(worker, hand)).add(hands[worker].job()) == running(hands).add(
            hand.job(),
        ),
    decreases hands.len(),
{
    let updated = hands.update(worker, hand);
    let rest = hands.drop_last();
    let before = running(hands).add(hand.job());
    let after = running(updated).add(hands[worker].job());
    assert(running(updated) == running(updated.drop_last()).add(updated.last().job()));
    assert(running(hands) == running(rest).add(hands.last().job()));
    if worker == hands.len() - 1 {
        assert(updated.drop_last() =~= rest);
        assert(after =~= before);
    } else {
        assert(updated.drop_last() =~= rest.update(worker, hand));
        lemma_running_update(rest, worker, hand);
        assert forall|job: J| after.count(job) == before.count(job) by {
            let inner_after = running(rest.update(worker, hand)).add(rest[worker].job());
            assert(inner_after.count(job) == running(rest).add(hand.job()).count(job));
        }
        assert(after =~= before);
    }
}

proof fn lemma_running_same_jobs<J>(hands: Seq<Hand<J>>, others: Seq<Hand<J>>)
    requires
        hands.len() == others.len(),
        forall|i: int| 0 <= i < hands.len() ==> (#[trigger] hands[i]).job() == others[i].job(),
    ensures
        running(hands) == running(others),
    decreases hands.len(),
{
    if hands.len() > 0 {
        lemma_running_same_jobs(hands.drop_last(), others.drop_last());
    }
}

proof fn lemma_running_idle<J>(hands: Seq<Hand<J>>)
    requires
        forall|i: int| 0 <= i < hands.len() ==> !((#[trigger] hands[i]).status is Running),
    ensures
        running(hands) == Multiset::<J>::empty(),
    decreases hands.len(),
{
    if hands.len() > 0 {
        lemma_running_idle(hands.drop_last());
        assert(running(hands) =~= Multiset::<J>::empty());
    }
}

proof fn lemma_crashes_update<J>(hands: Seq<Hand<J>>, worker: int, hand: Hand<J>)
    requires
        0 <= worker < hands.len(),
    ensures
        crashes(hands.update(worker, hand)) + (if hands[worker].status is Crashed {
            1int
        } else {
            0int
        }) == crashes(hands) + (if hand.status is Crashed {
            1int
        } else {
            0int
        }),
    decreases hands.len(),
{
    let updated = hands.update(worker, hand);
    if worker == hands.len() - 1 {
        assert(updated.drop_last() =~= hands.drop_last());
    } else {
        assert(updated.drop_last() =~= hands.drop_last().update(worker, hand));
        lemma_crashes_update(hands.drop_last(), worker, hand);
    }
}

proof fn lemma_crashes_same<J>(hands: Seq<Hand<J>>, others: Seq<Hand<J>>)
    requires
        hands.len() == others.len(),
        forall|i: int|
            0 <= i < hands.len() ==> (#[trigger] hands[i]).status == others[i].status,
    ensures
        crashes(hands) == crashes(others),
    decreases hands.len(),
{
    if hands.len() > 0 {
        lemma_crashes_same(hands.drop_last(), others.drop_last());
    }
}

/// If not all of these workers have crashed, there is one that has not, and if some have, there is
/// one that has.
proof fn lemma_crashes_witness<J>(hands: Seq<Hand<J>>)
    ensures
        crashes(hands) <= hands.len(),
        crashes(hands) < hands.len() ==> exists|i: int|
            0 <= i < hands.len() && !((#[trigger] hands[i]).status is Crashed),
        crashes(hands) == 0 ==> forall|i: int|
            0 <= i < hands.len() ==> !((#[trigger] hands[i]).status is Crashed),
    decreases hands.len(),
{
    if hands.len() > 0 {
        let rest = hands.drop_last();
        lemma_crashes_witness(rest);
        if crashes(rest) < rest.len() {
            let i = choose|i: int|
                0 <= i < rest.len() && !((#[trigger] rest[i]).status is Crashed);
            assert(!(hands[i].status is Crashed));
        }
        assert(hands.last() == hands[hands.len() - 1]);
        assert forall|i: int| crashes(hands) == 0 && 0 <= i < hands.len() implies !((
        #[trigger] hands[i]).status is Crashed) by {
            if i < rest.len() {
                assert(hands[i] == rest[i]);
            }
        }
    }
}

proof fn lemma_no_crashes<J>(hands: Seq<Hand<J>>)
    requires
        forall|i: int| 0 <= i < hands.len() ==> !((#[trigger] hands[i]).status is Crashed),
    ensures
        crashes(hands) == 0,
    decreases hands.len(),
{
    if hands.len() > 0 {
        lemma_no_crashes(hands.drop_last());
    }
}

/// Replacing a worker's state by one with the same job does not change which jobs are run.
proof fn lemma_running_kept<J>(hands: Seq<Hand<J>>, worker: int, hand: Hand<J>)
    requires
        0 <= worker < hands.len(),
        hand.job() == hands[worker].job(),
    ensures
        running(hands.update(worker, hand)) == running(hands),
{
    lemma_running_same_jobs(hands.update(worker, hand), hands);
}

proof fn lemma_submit<J>(fleet: Fleet<J>, workers: nat, job: J, worker: int)
    requires
        fleet.sound(workers),
        fleet.allows(Event::Submit(job, worker)),
    ensures
        fleet.after(Event::Submit(job, worker)).sound(workers),
{
    broadcast use vstd::seq_lib::group_to_multiset_ensures;

    let next = fleet.after(Event::Submit(job, worker));
    lemma_running_kept(fleet.hands, worker, next.hands[worker]);
    lemma_crashes_update(fleet.hands, worker, next.hands[worker]);
    lemma_crashes_witness(fleet.hands);
    assert(next.submitted =~= next.known());
    assert(fleet.crashed.len() == 0 ==> next.hands[worker].will_look());
}

proof fn lemma_wake<J>(fleet: Fleet<J>, workers: nat, worker: int)
    requires
        fleet.sound(workers),
        fleet.allows(Event::Wake(worker)),
    ensures
        fleet.after(Event::Wake(worker)).sound(workers),
{
    let next = fleet.after(Event::Wake(worker));
    lemma_running_kept(fleet.hands, worker, next.hands[worker]);
    lemma_crashes_update(fleet.hands, worker, next.hands[worker]);
    lemma_crashes_witness(fleet.hands);
    assert(fleet.crashed.len() == 0 ==> next.hands[worker].will_look());
}

proof fn lemma_close<J>(fleet: Fleet<J>, workers: nat)
    requires
        workers > 0,
        fleet.sound(workers),
        fleet.allows(Event::Close),
    ensures
        fleet.after(Event::Close).sound(workers),
{
    let next = fleet.after(Event::<J>::Close);
    lemma_running_same_jobs(next.hands, fleet.hands);
    lemma_crashes_same(next.hands, fleet.hands);
    lemma_crashes_witness(fleet.hands);
    assert(fleet.crashed.len() == 0 ==> next.hands[0].will_look()) by {
        assert(fleet.hands[0].status == next.hands[0].status);
    }
}

proof fn lemma_look<J>(fleet: Fleet<J>, workers: nat, worker: int)
    requires
        fleet.sound(workers),
        fleet.allows(Event::Look(worker)),
    ensures
        fleet.after(Event::Look(worker)).sound(workers),
{
    let next = fleet.after(Event::Look(worker));
    lemma_running_kept(fleet.hands, worker, next.hands[worker]);
    lemma_crashes_update(fleet.hands, worker, next.hands[worker]);
    assert(next.hands[worker].will_look());
}

proof fn lemma_unpark<J>(fleet: Fleet<J>, workers: nat, worker: int)
    requires
        fleet.sound(workers),
        fleet.allows(Event::Unpark(worker)),
    ensures
        fleet.after(Event::Unpark(worker)).sound(workers),
{
    let next = fleet.after(Event::Unpark(worker));
    assert(fleet.hands[worker].patrol.sweep is None);
    lemma_running_kept(fleet.hands, worker, next.hands[worker]);
    lemma_crashes_update(fleet.hands, worker, next.hands[worker]);
    assert(next.hands[worker].will_look());
}

proof fn lemma_finish<J>(fleet: Fleet<J>, workers: nat, worker: int)
    requires
        fleet.sound(workers),
        fleet.allows(Event::Finish(worker)),
    ensures
        fleet.after(Event::Finish(worker)).sound(workers),
{
    let next = fleet.after(Event::Finish(worker));
    let job = fleet.hands[worker].status->Running_0;
    assert(fleet.hands[worker].patrol.sweep is None);
    lemma_running_update(fleet.hands, worker, next.hands[worker]);
    lemma_crashes_update(fleet.hands, worker, next.hands[worker]);
    assert(running(next.hands).add(Multiset::singleton(job)) =~= running(fleet.hands));
    assert(next.submitted =~= next.known());
    assert(next.hands[worker].will_look());
}

proof fn lemma_crash<J>(fleet: Fleet<J>, workers: nat, worker: int)
    requires
        fleet.sound(workers),
        fleet.allows(Event::Crash(worker)),
    ensures
        fleet.after(Event::Crash(worker)).sound(workers),
{
    let next = fleet.after(Event::Crash(worker));
    let job = fleet.hands[worker].status->Running_0;
    assert(fleet.hands[worker].patrol.sweep is None);
    lemma_running_update(fleet.hands, worker, next.hands[worker]);
    lemma_crashes_update(fleet.hands, worker, next.hands[worker]);
    assert(running(next.hands).add(Multiset::singleton(job)) =~= running(fleet.hands));
    assert(next.submitted =~= next.known());
    assert(next.crashed.len() == fleet.crashed.len() + 1);
}

proof fn lemma_probe<J>(fleet: Fleet<J>, workers: nat, worker: int, answer: Steal<J>)
    requires
        fleet.sound(workers),
        fleet.allows(Event::Probe(worker, answer)),
    ensures
        fleet.after(Event::Probe(worker, answer)).sound(workers),
{
    broadcast use vstd::seq_lib::group_to_multiset_ensures;

    let next = fleet.after(Event::Probe(worker, answer));
    let hand = fleet.hands[worker];
    let at = hand.patrol.sweep->0.at;
    match answer {
        Steal::Success(job) => {
            assert(at == Source::Global);
            assert(next.queue =~= fleet.queue.remove(0));
            assert(fleet.queue.to_multiset() =~= next.queue.to_multiset().insert(job));
            lemma_running_update(fleet.hands, worker, next.hands[worker]);
            lemma_crashes_update(fleet.hands, worker, next.hands[worker]);
            assert(running(next.hands) =~= running(fleet.hands).insert(job));
            assert(next.submitted =~= next.known());
            assert(next.hands[worker].will_look());
        },
        _ => {
            assert(next.queue == fleet.queue);
            assert(next.locals =~= fleet.locals);
            lemma_running_kept(fleet.hands, worker, next.hands[worker]);
            lemma_crashes_update(fleet.hands, worker, next.hands[worker]);
            if fleet.queue.len() > 0 && fleet.crashed.len() == 0 {
                let witness = choose|i: int|
                    0 <= i < fleet.hands.len() && (#[trigger] fleet.hands[i]).will_look();
                assert(next.hands[witness].will_look());
            }
        },
    }
}

/// Every event keeps the pool sound.
pub proof fn lemma_event<J>(fleet: Fleet<J>, workers: nat, event: Event<J>)
    requires
        workers > 0,
        fleet.sound(workers),
        fleet.allows(event),
    ensures
        fleet.after(event).sound(workers),
{
    match event {
        Event::Submit(job, worker) => lemma_submit(fleet, workers, job, worker),
        Event::Wake(worker) => lemma_wake(fleet, workers, worker),
        Event::Close => lemma_close(fleet, workers),
        Event::Look(worker) => lemma_look(fleet, workers, worker),
        Event::Probe(worker, answer) => lemma_probe(fleet, workers, worker, answer),
        Event::Finish(worker) => lemma_finish(fleet, workers, worker),
        Event::Crash(worker) => lemma_crash(fleet, workers, worker),
        Event::Unpark(worker) => lemma_unpark(fleet, workers, worker),
    }
}

/// The soundness of a pool is an invariant: it holds after every possible course of events.
pub proof fn law_always_sound<J>(workers: nat, events: Seq<Event<J>>)
    requires
        workers > 0,
        Fleet::possible(workers, events),
    ensures
        Fleet::reached(workers, events).sound(workers),
    decreases events.len(),
{
    if events.len() == 0 {
        let fleet = Fleet::<J>::fresh(workers);
        lemma_running_idle(fleet.hands);
        lemma_no_crashes(fleet.hands);
        assert(fleet.submitted =~= fleet.known()) by {
            broadcast use vstd::seq_lib::group_to_multiset_ensures;

        }
    } else {
        law_always_sound(workers, events.drop_last());
        lemma_event(
            Fleet::reached(workers, events.drop_last()),
            workers,
            events.last(),
        );
    }
}

/// No job is lost and none is run twice: at any time, the accepted jobs are those that wait in
/// the queue, those that are being run and those that have been run, be it to their end or to a
/// panic, each counted once.
pub proof fn law_every_job_accounted_for<J>(workers: nat, events: Seq<Event<J>>)
    requires
        workers > 0,
        Fleet::possible(workers, events),
    ensures
        ({
            let fleet = Fleet::reached(workers, events);
            fleet.submitted == fleet.queue.to_multiset().add(running(fleet.hands)).add(
                fleet.finished,
            ).add(fleet.crashed)
        }),
{
    law_always_sound(workers, events);
}

/// Shutdown is clean: once all workers' threads have ended and no job has panicked, every accepted
/// job has been run to its end. So whoever waits for the threads to end waits for every job to
/// finish.
pub proof fn law_clean_shutdown<J>(workers: nat, events: Seq<Event<J>>)
    requires
        workers > 0,
        Fleet::possible(workers, events),
        Fleet::reached(workers, events).deserted(),
        Fleet::reached(workers, events).crashed.len() == 0,
    ensures
        Fleet::reached(workers, events).finished == Fleet::reached(workers, events).submitted,
{
    law_panics_spare_other_jobs(workers, events);
    let fleet = Fleet::reached(workers, events);
    assert(fleet.crashed =~= Multiset::empty());
    assert(fleet.finished =~= fleet.submitted);
}

/// Panics spare the other jobs: once all workers' threads have ended, if fewer jobs have panicked
/// than there are workers, every accepted job has either been run to its end or is one of those
/// that panicked, each once. Only if every worker has been lost to a panic may jobs be left.
pub proof fn law_panics_spare_other_jobs<J>(workers: nat, events: Seq<Event<J>>)
    requires
        workers > 0,
        Fleet::possible(workers, events),
        Fleet::reached(workers, events).deserted(),
        Fleet::reached(workers, events).crashed.len() < workers,
    ensures
        Fleet::reached(workers, events).submitted == Fleet::reached(workers, events).finished.add(
            Fleet::reached(workers, events).crashed,
        ),
        Fleet::reached(workers, events).queue.len() == 0,
{
    broadcast use vstd::seq_lib::group_to_multiset_ensures;

    law_always_sound(workers, events);
    let fleet = Fleet::reached(workers, events);
    lemma_crashes_witness(fleet.hands);
    let left = choose|i: int|
        0 <= i < fleet.hands.len() && !((#[trigger] fleet.hands[i]).status is Crashed);
    assert(fleet.hands[left].ended());
    assert(fleet.hands[left].sound(workers, fleet.closed, fleet.queue.len() == 0));
    assert(fleet.queue =~= Seq::empty());
    lemma_running_idle(fleet.hands);
    assert(fleet.submitted =~= fleet.finished.add(fleet.crashed));
}

/// A panic ends the worker's thread and nothing else: the panicking job is the one that this worker
/// ran, the queue, the flag and all other workers stay as they are, and the worker has not left.
pub proof fn law_a_panic_touches_one_worker<J>(fleet: Fleet<J>, worker: int)
    requires
        fleet.allows(Event::Crash(worker)),
    ensures
        ({
            let next = fleet.after(Event::Crash(worker));
            &&& next.crashed == fleet.crashed.insert(fleet.hands[worker].status->Running_0)
            &&& next.hands[worker].status is Crashed
            &&& next.queue == fleet.queue
            &&& next.closed == fleet.closed
            &&& next.finished == fleet.finished
            &&& next.submitted == fleet.submitted
            &&& forall|i: int|
                0 <= i < fleet.hands.len() && i != worker ==> #[trigger] next.hands[i]
                    == fleet.hands[i]
        }),
{
}

/// Workers stay until the pool is closed and the queue is empty: while either is not so, no
/// worker has left.
pub proof fn law_nobody_leaves_early<J>(workers: nat, events: Seq<Event<J>>, worker: int)
    requires
        workers > 0,
        Fleet::possible(workers, events),
        0 <= worker < workers,
        Fleet::reached(workers, events).hands[worker].status is Gone,
    ensures
        Fleet::reached(workers, events).closed,
        Fleet::reached(workers, events).queue.len() == 0,
{
    law_always_sound(workers, events);
}

/// No job is stranded: as long as a job waits in the queue and none has panicked, the workers are
/// not all asleep with nothing about to wake them.
pub proof fn law_no_job_stranded<J>(workers: nat, events: Seq<Event<J>>)
    requires
        workers > 0,
        Fleet::possible(workers, events),
        Fleet::reached(workers, events).queue.len() > 0,
        Fleet::reached(workers, events).crashed.len() == 0,
    ensures
        exists|i: int|
            0 <= i < workers && !(#[trigger] Fleet::reached(workers, events).hands[i]).asleep()
                && !Fleet::reached(workers, events).hands[i].ended(),
{
    law_always_sound(workers, events);
    let fleet = Fleet::reached(workers, events);
    let witness = choose|i: int|
        0 <= i < fleet.hands.len() && (#[trigger] fleet.hands[i]).will_look();
    assert(!fleet.hands[witness].asleep());
}

/// Shutdown reaches everybody: in a closed pool no worker is asleep with nothing about to wake
/// it, so that waiting for the workers' threads to end cannot hang on a sleeper.
pub proof fn law_shutdown_wakes_all<J>(workers: nat, events: Seq<Event<J>>, worker: int)
    requires
        workers > 0,
        Fleet::possible(workers, events),
        Fleet::reached(workers, events).closed,
        0 <= worker < workers,
    ensures
        !Fleet::reached(workers, events).hands[worker].asleep(),
{
    law_always_sound(workers, events);
}

proof fn lemma_work_update<J>(hands: Seq<Hand<J>>, sources: int, worker: int, hand: Hand<J>)
    requires
        0 <= worker < hands.len(),
    ensures
        total_work(hands.update(worker, hand), sources) == total_work(hands, sources)
            - hands[worker].work(sources) + hand.work(sources),
    decreases hands.len(),
{
    let updated = hands.update(worker, hand);
    if worker == hands.len() - 1 {
        assert(updated.drop_last() =~= hands.drop_last());
    } else {
        assert(updated.drop_last() =~= hands.drop_last().update(worker, hand));
        lemma_work_update(hands.drop_last(), sources, worker, hand);
    }
}

proof fn lemma_work_not_negative<J>(hands: Seq<Hand<J>>, peers: nat)
    requires
        forall|i: int|
            0 <= i < hands.len() ==> ((#[trigger] hands[i]).patrol.sweep matches Some(sweep)
                ==> sweep.at.exists_among(peers)),
    ensures
        total_work(hands, sources(peers)) >= 0,
    decreases hands.len(),
{
    if hands.len() > 0 {
        lemma_work_not_negative(hands.drop_last(), peers);
        assert(hands.last() == hands[hands.len() - 1]);
    }
}

/// Shutdown ends: once the pool is closed, every event brings the end nearer, except that a
/// worker which lost a race asks again. Hence only a bounded number of other events can follow.
pub proof fn law_shutdown_ends<J>(workers: nat, events: Seq<Event<J>>, event: Event<J>)
    requires
        0 < workers <= usize::MAX,
        Fleet::possible(workers, events),
        Fleet::reached(workers, events).closed,
        Fleet::reached(workers, events).allows(event),
        !(event matches Event::Probe(_, answer) && answer is Retry),
    ensures
        0 <= Fleet::reached(workers, events).after(event).work() < Fleet::reached(
            workers,
            events,
        ).work(),
{
    law_always_sound(workers, events);
    let fleet = Fleet::reached(workers, events);
    let next = fleet.after(event);
    lemma_event(fleet, workers, event);
    assert forall|i: int| 0 <= i < next.hands.len() implies ((
    #[trigger] next.hands[i]).patrol.sweep matches Some(sweep) ==> sweep.at.exists_among(
        workers,
    )) by {
        assert(next.hands[i].sound(workers, next.closed, next.queue.len() == 0));
    }
    lemma_work_not_negative(next.hands, workers);
    let worker = match event {
        Event::Submit(_, worker) => worker,
        Event::Wake(worker) => worker,
        Event::Close => 0,
        Event::Look(worker) => worker,
        Event::Probe(worker, _) => worker,
        Event::Finish(worker) => worker,
        Event::Crash(worker) => worker,
        Event::Unpark(worker) => worker,
    };
    assert(fleet.hands[worker].sound(workers, fleet.closed, fleet.queue.len() == 0));
    lemma_work_update(fleet.hands, sources(workers), worker, next.hands[worker]);
    assert(next.hands =~= fleet.hands.update(worker, next.hands[worker]));
    if let Event::Probe(_, answer) = event {
        let at = fleet.hands[worker].patrol.sweep->0.at;
        match answer {
            Steal::Success(_) => {
                assert(at == Source::Global);
                assert(next.queue.len() == fleet.queue.len() - 1);
            },
            Steal::Empty => match at.successor(workers) {
                Some(following) => assert(following.place() == at.place() + 1),
                None => assert(at.place() == sources(workers) - 1),
            },
            Steal::Retry => {},
        }
    }
}

/// Shutdown is never stuck: in a closed pool, every worker whose thread has not ended has
/// something to do next, and a worker that sleeps does not sleep for good.
pub proof fn law_shutdown_never_stuck<J>(workers: nat, events: Seq<Event<J>>, worker: int)
    requires
        workers > 0,
        Fleet::possible(workers, events),
        Fleet::reached(workers, events).closed,
        0 <= worker < workers,
        !Fleet::reached(workers, events).hands[worker].ended(),
    ensures
        ({
            let fleet = Fleet::reached(workers, events);
            &&& fleet.allows(fleet.next_event(worker))
            &&& fleet.next_event(worker) is Unpark ==> fleet.hands[worker].token
        }),
{
    law_always_sound(workers, events);
    let fleet = Fleet::reached(workers, events);
    assert(fleet.hands[worker].sound(workers, fleet.closed, fleet.queue.len() == 0));
}

} // verus!
