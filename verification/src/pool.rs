//! The pool itself. What it does to shared things it does through a journal, so that its
//! contracts can name every call; the [`entry`](crate::entry) points open the journals.

use vstd::prelude::*;

use std::sync::Arc;

use core_affinity::CoreId;
use crossbeam_deque::{Injector, Stealer, Worker as LocalQueue};

use crate::affinity::target_core;
use crate::dispatch::{law_round_robin, ticket_for, wake_target, worker_to_wake};
use crate::entry::journal::{listed, makes_same, novel, Call, Counter, Flag, Journal};
use crate::error::PoolError;
use crate::report::{completed_line, completed_text};
use crate::station::Station;

verus! {

/// What a [`ThreadPool`](crate::ThreadPool) is made of.
#[verifier::reject_recursive_types(J)]
pub struct Pool<J> {
    injector: Arc<Injector<J>>,
    shutdown: Arc<Flag>,
    // What the flag holds, for the pool's own use: the flag changes nowhere but in `close`, which
    // has the pool to itself.
    closed: bool,
    next_worker: Counter,
    task_counts: Vec<Arc<Counter>>,
}

/// The handle steals from the queue: it is a clone of one that the queue's owner made.
pub open spec fn leads_to<J>(stealer: Stealer<J>, queue: LocalQueue<J>) -> bool {
    exists|handle: Stealer<J>|
        call_ensures(LocalQueue::<J>::stealer, (&queue,), handle) && #[trigger] cloned(
            handle,
            stealer,
        )
}

/// A vector can hold so many pointers: they take up no more bytes than a vector can have.
pub open spec fn storable(pointers: nat) -> bool {
    pointers * (usize::BITS / 8) <= isize::MAX
}

/// What the record `after` has more than `before` makes nothing that was made at an earlier time.
pub open spec fn all_new<J>(before: Seq<Call<J>>, after: Seq<Call<J>>) -> bool {
    forall|i: int, k: int|
        0 <= i < k < after.len() && k >= before.len() ==> !#[trigger] makes_same(
            after[i],
            after[k],
        )
}

/// The call with the number `k` of those that make the workers' queues and counters in turn.
spec fn outfit<J>(queues: Seq<LocalQueue<J>>, counters: Seq<Arc<Counter>>, k: int) -> Call<J> {
    if k % 2 == 0 {
        Call::MadeLocal(queues[k / 2])
    } else {
        Call::MadeCounter(*counters[k / 2], 0)
    }
}

proof fn lemma_new_after<J>(before: Seq<Call<J>>, after: Seq<Call<J>>, call: Call<J>)
    requires
        all_new(before, after),
        before.len() <= after.len(),
        novel(after, call),
    ensures
        all_new(before, after.push(call)),
{
    let longer = after.push(call);
    assert forall|i: int, k: int| 0 <= i < k < longer.len() && k >= before.len() implies
        !#[trigger] makes_same(longer[i], longer[k]) by {
        if k < after.len() {
            assert(!makes_same(after[i], after[k]));
        } else {
            assert(!makes_same(after[i], call));
        }
    }
}

impl<J> Pool<J> {
    /// The queue that all jobs are submitted to.
    pub closed spec fn queue(&self) -> Injector<J> {
        *self.injector
    }

    /// The flag by which the workers learn that the pool is shutting down.
    pub closed spec fn flag(&self) -> Flag {
        *self.shutdown
    }

    /// The counter that gives every submission its ticket.
    pub closed spec fn tickets(&self) -> Counter {
        self.next_worker
    }

    /// The counters of the workers' completed jobs, by number.
    pub closed spec fn counters(&self) -> Seq<Counter> {
        self.task_counts@.map_values(|counter: Arc<Counter>| *counter)
    }

    /// The number of workers.
    pub open spec fn size(&self) -> nat {
        self.counters().len()
    }

    /// The pool is shutting down and accepts no further job.
    pub closed spec fn is_closed(&self) -> bool {
        self.closed
    }

    #[verifier::type_invariant]
    spec fn well_formed(self) -> bool {
        self.task_counts@.len() > 0
    }

    /// The calls by which this pool and the stations of its workers are made: the global queue,
    /// the flag, which is down, the counter of tickets, and each worker's queue and counter. All
    /// counts begin at zero.
    pub open spec fn making(&self, stations: Seq<Station<J>>) -> Seq<Call<J>> {
        seq![
            Call::MadeQueue(self.queue()),
            Call::MadeFlag(self.flag(), false),
            Call::MadeCounter(self.tickets(), 0),
        ] + Seq::new(
            2 * self.size(),
            |k: int|
                if k % 2 == 0 {
                    Call::MadeLocal(stations[k / 2].own())
                } else {
                    Call::MadeCounter(self.counters()[k / 2], 0)
                },
        )
    }

    /// This pool and the stations of its workers were made by the calls that `after` has more
    /// than `before`. Nothing of what was made had been made earlier in this record.
    pub open spec fn made_between(
        &self,
        stations: Seq<Station<J>>,
        before: Seq<Call<J>>,
        after: Seq<Call<J>>,
    ) -> bool {
        &&& after == before + self.making(stations)
        &&& all_new(before, after)
    }

    /// This is the station of worker `i` of this pool, which is meant for its core of
    /// `core_ids`.
    pub open spec fn equips(&self, i: int, station: Station<J>, core_ids: Seq<CoreId>) -> bool {
        &&& station.number() == i
        &&& station.global() == self.queue()
        &&& station.flag() == self.flag()
        &&& station.counter() == self.counters()[i]
        &&& station.target() == crate::affinity::assigned_core(i, core_ids)
        &&& station.peers().len() == self.size()
    }

    /// These are the stations of all workers of this pool, and each can steal from each.
    pub open spec fn furnished(&self, stations: Seq<Station<J>>, core_ids: Seq<CoreId>) -> bool {
        &&& stations.len() == self.size()
        &&& forall|i: int|
            0 <= i < stations.len() ==> self.equips(i, #[trigger] stations[i], core_ids)
        &&& forall|i: int, j: int|
            0 <= i < stations.len() && 0 <= j < stations.len() ==> leads_to(
                #[trigger] stations[i].peers()[j],
                stations[j].own(),
            )
    }

    /// The call draws this ticket.
    pub open spec fn draws(&self, call: Call<J>, ticket: usize) -> bool {
        call == Call::<J>::Added(self.tickets(), 1, ticket)
    }

    /// The calls by which a submission of `job` comes to this. A closed pool refuses the job and
    /// makes no call. An open pool accepts it: the job is pushed, one ticket is drawn, and the
    /// ticket says which worker to wake.
    pub open spec fn submission(
        &self,
        job: J,
        calls: Seq<Call<J>>,
        submitted: Result<usize, PoolError>,
    ) -> bool {
        if self.is_closed() {
            &&& calls == Seq::<Call<J>>::empty()
            &&& submitted == Err::<usize, PoolError>(PoolError::SendError)
        } else {
            &&& calls.len() == 2
            &&& calls[0] == Call::Pushed(self.queue(), job)
            &&& submitted is Ok
            &&& submitted->Ok_0 < self.size()
            &&& exists|ticket: usize| #[trigger]
                self.draws(calls[1], ticket) && submitted->Ok_0 == wake_target(
                    ticket as int,
                    self.size() as int,
                )
        }
    }

    /// `after` is this pool once it has been closed; nothing else has changed.
    pub open spec fn closes_as(&self, after: &Pool<J>) -> bool {
        &&& after.is_closed()
        &&& after.queue() == self.queue()
        &&& after.flag() == self.flag()
        &&& after.tickets() == self.tickets()
        &&& after.counters() == self.counters()
    }

    /// The call reads the counter of worker `i`, and the line states the number that was read.
    pub open spec fn reports(&self, i: int, call: Call<J>, line: Seq<char>) -> bool {
        call matches Call::Counted(counter, tasks) && counter == self.counters()[i] && line
            == completed_text(i as nat, tasks as nat)
    }

    /// The line states how many jobs worker `i` had completed when its counter was read.
    pub open spec fn reported(&self, i: int, line: Seq<char>) -> bool {
        exists|call: Call<J>| #[trigger] self.reports(i, call, line)
    }

    /// Makes a pool of `size` workers that are dealt out to the given cores, and the workers'
    /// stations.
    ///
    /// # Errors
    ///
    /// [`PoolError::ZeroWorkers`] if `size` is `0`.
    pub fn assemble(size: usize, core_ids: Vec<CoreId>, journal: &mut Journal<J>) -> (made: Result<
        (Pool<J>, Vec<Station<J>>),
        PoolError,
    >)
        requires
            storable(size as nat),
            forall|i: int|
                0 <= i < core_ids@.len() ==> listed::<J>(#[trigger] core_ids@[i]),
        ensures
            match made {
                Ok((pool, stations)) => {
                    &&& size > 0
                    &&& pool.size() == size
                    &&& !pool.is_closed()
                    &&& pool.furnished(stations@, core_ids@)
                    &&& pool.made_between(
                        stations@,
                        old(journal).calls(),
                        final(journal).calls(),
                    )
                },
                Err(error) => {
                    &&& size == 0
                    &&& error == PoolError::ZeroWorkers
                    &&& final(journal).calls() == old(journal).calls()
                },
            },
    {
        if size == 0 {
            return Err(PoolError::ZeroWorkers);
        }
        let ghost before = journal.calls();
        let ghost mut calls = before;
        let injector: Arc<Injector<J>> = Arc::new(journal.make_queue());
        proof {
            lemma_new_after(before, calls, journal.calls().last());
            calls = journal.calls();
        }
        let shutdown = Arc::new(journal.make_flag(false));
        proof {
            lemma_new_after(before, calls, journal.calls().last());
            calls = journal.calls();
        }
        let next_worker = journal.make_counter(0);
        proof {
            lemma_new_after(before, calls, journal.calls().last());
            calls = journal.calls();
        }
        let ghost shared = calls;
        let mut local_queues: Vec<LocalQueue<J>> = Vec::new();
        let mut stealers: Vec<Stealer<J>> = Vec::new();
        let mut task_counts: Vec<Arc<Counter>> = Vec::new();
        for i in 0..size
            invariant
                local_queues@.len() == i,
                stealers@.len() == i,
                task_counts@.len() == i,
                before.len() <= shared.len(),
                calls == journal.calls(),
                all_new(before, calls),
                calls.len() == shared.len() + 2 * i,
                forall|k: int| 0 <= k < shared.len() ==> #[trigger] calls[k] == shared[k],
                forall|k: int|
                    shared.len() <= k < calls.len() ==> #[trigger] calls[k] == outfit(
                        local_queues@,
                        task_counts@,
                        k - shared.len(),
                    ),
                forall|j: int|
                    0 <= j < i ==> call_ensures(
                        LocalQueue::<J>::stealer,
                        (&local_queues@[j],),
                        #[trigger] stealers@[j],
                    ),
        {
            let local = journal.make_local();
            proof {
                lemma_new_after(before, calls, journal.calls().last());
                calls = journal.calls();
            }
            let counter = journal.make_counter(0);
            proof {
                lemma_new_after(before, calls, journal.calls().last());
                calls = journal.calls();
            }
            stealers.push(local.stealer());
            local_queues.push(local);
            task_counts.push(Arc::new(counter));
        }
        let ghost queues = local_queues@;

        let mut stations: Vec<Station<J>> = Vec::new();
        for id in 0..size
            invariant
                queues.len() == size,
                stealers@.len() == size,
                task_counts@.len() == size,
                local_queues@ == queues.skip(id as int),
                forall|i: int|
                    0 <= i < core_ids@.len() ==> listed::<J>(#[trigger] core_ids@[i]),
                stations@.len() == id,
                forall|i: int| 0 <= i < id ==> {
                    let station = #[trigger] stations@[i];
                    &&& station.number() == i
                    &&& station.own() == queues[i]
                    &&& station.global() == *injector
                    &&& station.flag() == *shutdown
                    &&& station.counter() == *task_counts@[i]
                    &&& station.target() == crate::affinity::assigned_core(i, core_ids@)
                    &&& station.peers().len() == size
                },
                forall|i: int, j: int|
                    0 <= i < id && 0 <= j < size ==> cloned(
                        stealers@[j],
                        #[trigger] stations@[i].peers()[j],
                    ),
        {
            let local = local_queues.remove(0);
            let core = target_core(id, &core_ids);
            stations.push(
                Station::new(
                    id,
                    local,
                    Arc::clone(&injector),
                    stealers.clone(),
                    Arc::clone(&shutdown),
                    Arc::clone(&task_counts[id]),
                    core,
                ),
            );
        }
        let pool = Pool {
            injector,
            shutdown,
            closed: false,
            next_worker,
            task_counts,
        };
        proof {
            assert(calls =~= before + pool.making(stations@));
            assert forall|i: int| 0 <= i < size implies pool.equips(
                i,
                #[trigger] stations@[i],
                core_ids@,
            ) by {
                assert(stations@[i].own() == queues[i]);
            }
            assert forall|i: int, j: int| 0 <= i < size && 0 <= j < size implies leads_to(
                #[trigger] stations@[i].peers()[j],
                stations@[j].own(),
            ) by {
                assert(cloned(stealers@[j], stations@[i].peers()[j]));
            }
        }
        Ok((pool, stations))
    }

    /// Submits a job. The answer names the worker to wake, so that it goes and claims the job.
    ///
    /// # Errors
    ///
    /// [`PoolError::SendError`] if the pool is shutting down.
    pub fn submit(&self, job: J, journal: &mut Journal<J>) -> (submitted: Result<usize, PoolError>)
        ensures
            exists|calls: Seq<Call<J>>| #[trigger]
                self.submission(job, calls, submitted) && final(journal).calls() == old(
                    journal,
                ).calls() + calls,
    {
        proof {
            use_type_invariant(self);
        }
        if self.closed {
            let submitted = Err(PoolError::SendError);
            proof {
                let calls = Seq::<Call<J>>::empty();
                assert(self.submission(job, calls, submitted));
                assert(journal.calls() =~= old(journal).calls() + calls);
            }
            return submitted;
        }
        journal.push(&self.injector, job);
        let ticket = journal.fetch_add(&self.next_worker, 1);
        let submitted = Ok(worker_to_wake(ticket, self.task_counts.len()));
        proof {
            let calls = seq![
                Call::Pushed(self.queue(), job),
                Call::Added(self.tickets(), 1, ticket),
            ];
            assert(self.draws(calls[1], ticket));
            assert(self.submission(job, calls, submitted));
            assert(journal.calls() =~= old(journal).calls() + calls);
        }
        submitted
    }

    /// Closes the pool: no further job is accepted, and the workers are told to leave once no
    /// job is left. The answer names the workers to wake, which are all.
    pub fn close(&mut self, journal: &mut Journal<J>) -> (wake: Vec<usize>)
        ensures
            old(self).closes_as(final(self)),
            final(journal).calls() == old(journal).calls().push(
                Call::Stored(old(self).flag(), true),
            ),
            wake@.len() == old(self).size(),
            forall|i: int| 0 <= i < wake@.len() ==> #[trigger] wake@[i] == i,
    {
        proof {
            use_type_invariant(&*self);
        }
        journal.store(&self.shutdown, true);
        self.closed = true;
        let mut wake: Vec<usize> = Vec::new();
        for i in 0..self.task_counts.len()
            invariant
                wake@.len() == i,
                forall|j: int| 0 <= j < i ==> #[trigger] wake@[j] == j,
        {
            wake.push(i);
        }
        wake
    }

    /// Writes one line for each worker on how many jobs it has completed so far.
    pub fn tally(&self, journal: &mut Journal<J>) -> (lines: Vec<String>)
        ensures
            lines@.len() == self.size(),
            exists|calls: Seq<Call<J>>|
                {
                    &&& final(journal).calls() == #[trigger] (old(journal).calls() + calls)
                    &&& calls.len() == self.size()
                    &&& forall|i: int|
                        0 <= i < calls.len() ==> self.reports(i, #[trigger] calls[i], lines@[i]@)
                },
    {
        let mut lines: Vec<String> = Vec::new();
        let ghost mut calls = Seq::<Call<J>>::empty();
        assert(journal.calls() =~= old(journal).calls() + calls);
        for i in 0..self.task_counts.len()
            invariant
                lines@.len() == i,
                calls.len() == i,
                journal.calls() == old(journal).calls() + calls,
                forall|j: int| 0 <= j < i ==> self.reports(j, #[trigger] calls[j], lines@[j]@),
        {
            let tasks = journal.count(&self.task_counts[i]);
            let line = completed_line(i, tasks);
            proof {
                let call = Call::<J>::Counted(self.counters()[i as int], tasks);
                assert(self.reports(i as int, call, line@));
                assert(old(journal).calls() + calls.push(call) =~= (old(journal).calls()
                    + calls).push(call));
                calls = calls.push(call);
            }
            lines.push(line);
        }
        lines
    }
}

/// Whatever is submitted to a pool that has been closed is refused with
/// [`PoolError::SendError`], and nothing is done with it.
pub proof fn law_closed_pool_refuses<J>(
    before: Pool<J>,
    after: Pool<J>,
    job: J,
    calls: Seq<Call<J>>,
    submitted: Result<usize, PoolError>,
)
    requires
        before.closes_as(&after),
        after.submission(job, calls, submitted),
    ensures
        submitted == Err::<usize, PoolError>(PoolError::SendError),
        calls == Seq::<Call<J>>::empty(),
{
}

/// Whatever is submitted to a pool that is not closed is accepted, and pushed.
pub proof fn law_open_pool_accepts<J>(
    pool: Pool<J>,
    job: J,
    calls: Seq<Call<J>>,
    submitted: Result<usize, PoolError>,
)
    requires
        !pool.is_closed(),
        pool.submission(job, calls, submitted),
    ensures
        submitted is Ok,
        calls.contains(Call::Pushed(pool.queue(), job)),
{
    assert(calls[0] == Call::Pushed(pool.queue(), job));
}

/// How much the calls add to this counter.
pub open spec fn additions<J>(calls: Seq<Call<J>>, counter: Counter) -> nat
    decreases calls.len(),
{
    if calls.len() == 0 {
        0
    } else {
        additions(calls.drop_last(), counter) + match calls.last() {
            Call::Added(which, amount, _) if which == counter => amount as nat,
            _ => 0nat,
        }
    }
}

/// In this record the counter counts from zero: each addition finds the sum of what was added
/// before it. So it is for a counter that begins at zero and on which nobody else calls.
pub open spec fn counts_up<J>(calls: Seq<Call<J>>, counter: Counter) -> bool {
    forall|i: int|
        0 <= i < calls.len() ==> (#[trigger] calls[i] matches Call::Added(which, _, before) ==> (
        which == counter ==> before == additions(calls.take(i), counter)))
}

/// The records of several submissions, one after the other.
pub open spec fn joined<J>(records: Seq<Seq<Call<J>>>) -> Seq<Call<J>>
    decreases records.len(),
{
    if records.len() == 0 {
        Seq::empty()
    } else {
        joined(records.drop_last()) + records.last()
    }
}

proof fn lemma_additions_two<J>(calls: Seq<Call<J>>, push: Call<J>, draw: Call<J>, counter: Counter)
    requires
        push is Pushed,
        draw matches Call::Added(which, amount, _) && which == counter && amount == 1,
    ensures
        additions(calls.push(push), counter) == additions(calls, counter),
        additions(calls.push(push).push(draw), counter) == additions(calls, counter) + 1,
{
    assert(calls.push(push).drop_last() =~= calls);
    assert(calls.push(push).push(draw).drop_last() =~= calls.push(push));
}

proof fn lemma_joined_prefix<J>(records: Seq<Seq<Call<J>>>, k: int)
    requires
        0 <= k <= records.len(),
    ensures
        joined(records.take(k)).len() <= joined(records).len(),
        joined(records).take(joined(records.take(k)).len() as int) == joined(records.take(k)),
    decreases records.len(),
{
    if k == records.len() {
        assert(records.take(k) =~= records);
        assert(joined(records).take(joined(records).len() as int) =~= joined(records));
    } else {
        let rest = records.drop_last();
        lemma_joined_prefix(rest, k);
        assert(rest.take(k) =~= records.take(k));
        let short = joined(records.take(k));
        assert(joined(records).take(short.len() as int) =~= joined(rest).take(
            short.len() as int,
        ));
    }
}

/// Every accepted submission draws exactly one ticket, so the records of `k` of them hold `k`.
proof fn lemma_one_ticket_each<J>(
    pool: Pool<J>,
    jobs: Seq<J>,
    records: Seq<Seq<Call<J>>>,
    submitted: Seq<Result<usize, PoolError>>,
)
    requires
        !pool.is_closed(),
        jobs.len() == records.len() == submitted.len(),
        forall|i: int|
            0 <= i < jobs.len() ==> #[trigger] pool.submission(jobs[i], records[i], submitted[i]),
    ensures
        additions(joined(records), pool.tickets()) == records.len(),
    decreases records.len(),
{
    if records.len() > 0 {
        let last = records.len() - 1;
        let rest = records.drop_last();
        assert forall|i: int| 0 <= i < last implies #[trigger] pool.submission(
            jobs.drop_last()[i],
            rest[i],
            submitted.drop_last()[i],
        ) by {
            assert(pool.submission(jobs[i], records[i], submitted[i]));
        }
        lemma_one_ticket_each(pool, jobs.drop_last(), rest, submitted.drop_last());
        assert(pool.submission(jobs[last], records[last], submitted[last]));
        let record = records[last];
        lemma_additions_two(joined(rest), record[0], record[1], pool.tickets());
        assert(joined(records) =~= joined(rest).push(record[0]).push(record[1]));
    }
}

/// Submissions wake the workers round-robin: if jobs are submitted to an open pool one after the
/// other, and the tickets count up from zero, then the submission with the number `k`, counted
/// from zero, wakes the worker `k % size`.
pub proof fn law_submissions_wake_in_turn<J>(
    pool: Pool<J>,
    jobs: Seq<J>,
    records: Seq<Seq<Call<J>>>,
    submitted: Seq<Result<usize, PoolError>>,
    k: int,
)
    requires
        !pool.is_closed(),
        jobs.len() == records.len() == submitted.len(),
        forall|i: int|
            0 <= i < jobs.len() ==> #[trigger] pool.submission(jobs[i], records[i], submitted[i]),
        counts_up(joined(records), pool.tickets()),
        0 <= k < jobs.len(),
    ensures
        submitted[k] is Ok,
        submitted[k]->Ok_0 == k % pool.size() as int,
{
    assert(pool.submission(jobs[k], records[k], submitted[k]));
    let first = records.take(k);
    assert forall|i: int| 0 <= i < k implies #[trigger] pool.submission(
        jobs.take(k)[i],
        first[i],
        submitted.take(k)[i],
    ) by {
        assert(pool.submission(jobs[i], records[i], submitted[i]));
    }
    lemma_one_ticket_each(pool, jobs.take(k), first, submitted.take(k));
    lemma_joined_prefix(records, k);
    lemma_joined_prefix(records, k + 1);
    let all = joined(records);
    let at = joined(first).len();
    assert(records.take(k + 1).drop_last() =~= first);
    assert(joined(records.take(k + 1)) =~= joined(first) + records[k]);
    assert(all.take(at as int + 2) =~= joined(first) + records[k]);
    assert(all[at as int] == all.take(at as int + 2)[at as int]);
    assert(all[at as int + 1] == all.take(at as int + 2)[at as int + 1]);
    assert(all[at as int + 1] == records[k][1]);
    assert(all.take(at as int + 1) =~= joined(first).push(records[k][0]));
    lemma_additions_two(joined(first), records[k][0], records[k][1], pool.tickets());
}

/// Of any `size` submissions in a row, each worker is woken by exactly one, which is the one with
/// the number [`ticket_for`].
pub proof fn law_each_worker_woken_once_a_round<J>(
    pool: Pool<J>,
    jobs: Seq<J>,
    records: Seq<Seq<Call<J>>>,
    submitted: Seq<Result<usize, PoolError>>,
    first: nat,
    worker: nat,
)
    requires
        !pool.is_closed(),
        jobs.len() == records.len() == submitted.len(),
        forall|i: int|
            0 <= i < jobs.len() ==> #[trigger] pool.submission(jobs[i], records[i], submitted[i]),
        counts_up(joined(records), pool.tickets()),
        first + pool.size() <= jobs.len(),
        worker < pool.size(),
    ensures
        ({
            let k = ticket_for(first as int, pool.size() as int, worker as int);
            &&& first <= k < first + pool.size()
            &&& submitted[k] == Ok::<usize, PoolError>(worker as usize)
            &&& forall|other: int|
                first <= other < first + pool.size() && #[trigger] submitted[other] == Ok::<
                    usize,
                    PoolError,
                >(worker as usize) ==> other == k
        }),
{
    law_round_robin(first, pool.size(), worker);
    let k = ticket_for(first as int, pool.size() as int, worker as int);
    law_submissions_wake_in_turn(pool, jobs, records, submitted, k);
    assert forall|other: int|
        first <= other < first + pool.size() && #[trigger] submitted[other] == Ok::<
            usize,
            PoolError,
        >(worker as usize) implies other == k by {
        law_submissions_wake_in_turn(pool, jobs, records, submitted, other);
        assert(wake_target(other, pool.size() as int) == worker);
    }
}

proof fn lemma_making<J>(pool: Pool<J>, stations: Seq<Station<J>>, i: int)
    requires
        0 <= i < pool.size(),
    ensures
        pool.making(stations).len() == 3 + 2 * pool.size(),
        pool.making(stations)[3 + 2 * i] == Call::MadeLocal(stations[i].own()),
        pool.making(stations)[4 + 2 * i] == Call::<J>::MadeCounter(pool.counters()[i], 0),
{
}

/// The workers of a pool share no queue of their own and no counter, and nobody counts completed
/// jobs on the counter of tickets.
pub proof fn law_workers_are_apart<J>(
    pool: Pool<J>,
    stations: Seq<Station<J>>,
    before: Seq<Call<J>>,
    after: Seq<Call<J>>,
    i: int,
    j: int,
)
    requires
        pool.made_between(stations, before, after),
        0 <= i < pool.size(),
        0 <= j < pool.size(),
    ensures
        pool.counters()[i] != pool.tickets(),
        i != j ==> stations[i].own() != stations[j].own(),
        i != j ==> pool.counters()[i] != pool.counters()[j],
{
    let n: int = before.len() as int;
    lemma_making(pool, stations, i);
    lemma_making(pool, stations, j);
    assert(after[n + 2] == pool.making(stations)[2]);
    assert(!makes_same(after[n + 2], after[n + 4 + 2 * i]));
    if i != j {
        let (low, high) = if i < j {
            (i, j)
        } else {
            (j, i)
        };
        assert(!makes_same(after[n + 3 + 2 * low], after[n + 3 + 2 * high]));
        assert(!makes_same(after[n + 4 + 2 * low], after[n + 4 + 2 * high]));
    }
}

/// Pools of one record have nothing in common: a pool that is made later has another queue,
/// another flag, other counters, and its workers have other queues of their own. So it is with all
/// pools that are built in one [`Yard`](crate::entry::Yard). Pools whose making is in different
/// records are not compared.
pub proof fn law_pools_are_apart<J>(
    first: Pool<J>,
    first_stations: Seq<Station<J>>,
    second: Pool<J>,
    second_stations: Seq<Station<J>>,
    calls: Seq<Call<J>>,
    after_first: Seq<Call<J>>,
    meanwhile: Seq<Call<J>>,
    after_second: Seq<Call<J>>,
)
    requires
        first.made_between(first_stations, calls, after_first),
        second.made_between(second_stations, after_first + meanwhile, after_second),
    ensures
        apart(first, first_stations, second, second_stations),
{
    let n: int = calls.len() as int;
    let m: int = (after_first + meanwhile).len() as int;
    assert(!makes_same(after_second[n], after_second[m]));
    assert(!makes_same(after_second[n + 1], after_second[m + 1]));
    assert(!makes_same(after_second[n + 2], after_second[m + 2]));
    assert forall|i: int, j: int|
        0 <= i < first.size() && 0 <= j < second.size() implies #[trigger] first.counters()[i]
        != #[trigger] second.counters()[j] by {
        lemma_making(first, first_stations, i);
        lemma_making(second, second_stations, j);
        assert(!makes_same(after_second[n + 4 + 2 * i], after_second[m + 4 + 2 * j]));
    }
    assert forall|i: int| 0 <= i < first.size() implies #[trigger] first.counters()[i]
        != second.tickets() by {
        lemma_making(first, first_stations, i);
        assert(!makes_same(after_second[n + 4 + 2 * i], after_second[m + 2]));
    }
    assert forall|j: int| 0 <= j < second.size() implies #[trigger] second.counters()[j]
        != first.tickets() by {
        lemma_making(second, second_stations, j);
        assert(!makes_same(after_second[n + 2], after_second[m + 4 + 2 * j]));
    }
    assert forall|i: int, j: int|
        0 <= i < first.size() && 0 <= j < second.size() implies #[trigger] first_stations[i].own()
        != #[trigger] second_stations[j].own() by {
        lemma_making(first, first_stations, i);
        lemma_making(second, second_stations, j);
        assert(!makes_same(after_second[n + 3 + 2 * i], after_second[m + 3 + 2 * j]));
    }
}

/// The two pools share nothing.
pub open spec fn apart<J>(
    first: Pool<J>,
    first_stations: Seq<Station<J>>,
    second: Pool<J>,
    second_stations: Seq<Station<J>>,
) -> bool {
    &&& first.queue() != second.queue()
    &&& first.flag() != second.flag()
    &&& first.tickets() != second.tickets()
    &&& forall|i: int, j: int|
        0 <= i < first.size() && 0 <= j < second.size() ==> #[trigger] first.counters()[i]
            != #[trigger] second.counters()[j]
    &&& forall|i: int|
        0 <= i < first.size() ==> #[trigger] first.counters()[i] != second.tickets()
    &&& forall|j: int|
        0 <= j < second.size() ==> #[trigger] second.counters()[j] != first.tickets()
    &&& forall|i: int, j: int|
        0 <= i < first.size() && 0 <= j < second.size() ==> #[trigger] first_stations[i].own()
            != #[trigger] second_stations[j].own()
}

impl<J> Pool<J> {
    /// This is a counter of the pool.
    pub open spec fn counts_on(&self, counter: Counter) -> bool {
        counter == self.tickets() || self.counters().contains(counter)
    }

    /// The call is on something of this pool, whose workers have these stations. A call through a
    /// stealing handle is so if the handle leads to a queue of one of the workers.
    pub open spec fn concerned_by(&self, stations: Seq<Station<J>>, call: Call<J>) -> bool {
        match call {
            Call::Pushed(queue, _) => queue == self.queue(),
            Call::Stole(queue, _) => queue == self.queue(),
            Call::Popped(queue, _) => exists|i: int|
                0 <= i < self.size() && #[trigger] stations[i].own() == queue,
            Call::Robbed(handle, _) => exists|i: int|
                0 <= i < self.size() && leads_to(handle, #[trigger] stations[i].own()),
            Call::Stored(flag, _) => flag == self.flag(),
            Call::Loaded(flag, _) => flag == self.flag(),
            Call::Added(counter, _, _) => self.counts_on(counter),
            Call::Counted(counter, _) => self.counts_on(counter),
            _ => false,
        }
    }
}

/// Whatever a worker of a pool calls on, apart from its own thread, is of this pool: it takes no
/// job from elsewhere, learns of no other pool's shutdown and counts for no other pool.
pub proof fn law_workers_keep_to_their_pool<J>(
    pool: Pool<J>,
    stations: Seq<Station<J>>,
    core_ids: Seq<CoreId>,
    worker: int,
    calls: Seq<Call<J>>,
    i: int,
)
    requires
        pool.furnished(stations, core_ids),
        0 <= worker < stations.len(),
        stations[worker].life(calls) is Some,
        0 <= i < calls.len(),
    ensures
        calls[i] is Pinned || pool.concerned_by(stations, calls[i]),
{
    let station = stations[worker];
    station.law_keeps_to_what_is_at_hand(calls, i);
    assert(pool.equips(worker, station, core_ids));
    match calls[i] {
        Call::Popped(_, _) => assert(stations[worker].own() == station.own()),
        Call::Robbed(handle, _) => {
            let j = choose|j: int|
                0 <= j < station.peers().len() && #[trigger] station.peers()[j] == handle;
            assert(leads_to(stations[worker].peers()[j], stations[j].own()));
        },
        Call::Added(counter, _, _) => assert(pool.counters()[worker] == counter),
        _ => {},
    }
}

/// Submitting to a pool, closing it and reading its counts concern this pool.
pub proof fn law_pools_keep_to_themselves<J>(
    pool: Pool<J>,
    stations: Seq<Station<J>>,
    job: J,
    calls: Seq<Call<J>>,
    submitted: Result<usize, PoolError>,
)
    requires
        pool.submission(job, calls, submitted),
    ensures
        forall|i: int|
            0 <= i < calls.len() ==> pool.concerned_by(stations, #[trigger] calls[i]),
        pool.concerned_by(stations, Call::Stored(pool.flag(), true)),
        forall|i: int, call: Call<J>, line: Seq<char>|
            0 <= i < pool.size() && #[trigger] pool.reports(i, call, line) ==> pool.concerned_by(
                stations,
                call,
            ),
{
    assert forall|i: int, call: Call<J>, line: Seq<char>|
        0 <= i < pool.size() && #[trigger] pool.reports(
            i,
            call,
            line,
        ) implies pool.concerned_by(stations, call) by {
        assert(pool.counters().contains(pool.counters()[i]));
    }
}

/// What concerns one pool leaves another alone, so that closing one stops no worker of the other
/// and takes none of its jobs: a call on something of the first is on nothing of the second. A
/// stealing handle of the first leads to a queue that is none of the second's.
pub proof fn law_one_pool_leaves_the_other_alone<J>(
    first: Pool<J>,
    first_stations: Seq<Station<J>>,
    second: Pool<J>,
    second_stations: Seq<Station<J>>,
    call: Call<J>,
)
    requires
        apart(first, first_stations, second, second_stations),
        first.concerned_by(first_stations, call),
    ensures
        match call {
            Call::Robbed(handle, _) => exists|i: int|
                {
                    &&& 0 <= i < first.size()
                    &&& leads_to(handle, #[trigger] first_stations[i].own())
                    &&& forall|j: int|
                        0 <= j < second.size() ==> #[trigger] second_stations[j].own()
                            != first_stations[i].own()
                },
            _ => !second.concerned_by(second_stations, call),
        },
{
    if let Call::Robbed(handle, _) = call {
        let i = choose|i: int|
            0 <= i < first.size() && leads_to(handle, #[trigger] first_stations[i].own());
        assert forall|j: int| 0 <= j < second.size() implies #[trigger] second_stations[j].own()
            != first_stations[i].own() by {}
    }
}

} // verus!
