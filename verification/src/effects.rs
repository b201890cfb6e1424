//! What recorded calls come to in a world where nobody else calls: what the queues hold, whether
//! the flags are up and where the counters stand after them.
//!
//! The laws here say of the pool's operations what they leave behind in such a world.

use vstd::prelude::*;

use crossbeam_deque::{Injector, Steal, Stealer, Worker as LocalQueue};

use crate::entry::journal::{Call, Counter, Flag, Journal};
use crate::entry::ThreadPool;
use crate::error::PoolError;
use crate::lifecycle::{Event, Fleet};
use crate::pool::{joined, Pool};
use crate::report::{law_numbers_read_back, numeral, value};

verus! {

/// The contents of all queues, flags and counters.
#[verifier::reject_recursive_types(J)]
pub struct World<J> {
    /// The jobs in a queue for submissions, oldest first.
    pub waiting: spec_fn(Injector<J>) -> Seq<J>,
    /// The jobs in a worker's queue, oldest first.
    pub kept: spec_fn(LocalQueue<J>) -> Seq<J>,
    /// The queue that a handle steals from.
    pub behind: spec_fn(Stealer<J>) -> LocalQueue<J>,
    /// The flag is up.
    pub up: spec_fn(Flag) -> bool,
    /// What a counter would stand at if it did not wrap.
    pub count: spec_fn(Counter) -> nat,
}

/// What a counter stands at that wraps.
pub open spec fn wrapped(count: nat) -> nat {
    count % (usize::MAX as nat + 1)
}

impl<J> World<J> {
    /// The same world with other jobs in a queue for submissions.
    pub open spec fn with_waiting(self, queue: Injector<J>, jobs: Seq<J>) -> World<J> {
        World {
            waiting: |other: Injector<J>|
                if other == queue {
                    jobs
                } else {
                    (self.waiting)(other)
                },
            ..self
        }
    }

    /// The same world with other jobs in a worker's queue.
    pub open spec fn with_kept(self, queue: LocalQueue<J>, jobs: Seq<J>) -> World<J> {
        World {
            kept: |other: LocalQueue<J>|
                if other == queue {
                    jobs
                } else {
                    (self.kept)(other)
                },
            ..self
        }
    }

    /// The same world with another value of a flag.
    pub open spec fn with_flag(self, flag: Flag, value: bool) -> World<J> {
        World {
            up: |other: Flag|
                if other == flag {
                    value
                } else {
                    (self.up)(other)
                },
            ..self
        }
    }

    /// The same world with another count of a counter.
    pub open spec fn with_count(self, counter: Counter, count: nat) -> World<J> {
        World {
            count: |other: Counter|
                if other == counter {
                    count
                } else {
                    (self.count)(other)
                },
            ..self
        }
    }

    /// What the call has answered is true in this world. Queues for submissions hand out the
    /// oldest job, as do handles; the owner of a queue gets the newest.
    pub open spec fn bears(self, call: Call<J>) -> bool {
        match call {
            Call::Stole(queue, Steal::Success(job)) => (self.waiting)(queue).len() > 0 && job
                == (self.waiting)(queue)[0],
            Call::Stole(queue, Steal::Empty) => (self.waiting)(queue).len() == 0,
            Call::Popped(queue, Some(job)) => (self.kept)(queue).len() > 0 && job == (self.kept)(
                queue,
            ).last(),
            Call::Popped(queue, None) => (self.kept)(queue).len() == 0,
            Call::Robbed(handle, Steal::Success(job)) => (self.kept)((self.behind)(handle)).len()
                > 0 && job == (self.kept)((self.behind)(handle))[0],
            Call::Robbed(handle, Steal::Empty) => (self.kept)((self.behind)(handle)).len() == 0,
            Call::Loaded(flag, value) => value == (self.up)(flag),
            Call::Added(counter, _, before) => before == wrapped((self.count)(counter)),
            Call::Counted(counter, number) => number == wrapped((self.count)(counter)),
            _ => true,
        }
    }

    /// The world after the call.
    pub open spec fn after(self, call: Call<J>) -> World<J> {
        match call {
            Call::MadeQueue(queue) => self.with_waiting(queue, Seq::empty()),
            Call::MadeLocal(queue) => self.with_kept(queue, Seq::empty()),
            Call::MadeFlag(flag, value) => self.with_flag(flag, value),
            Call::MadeCounter(counter, number) => self.with_count(counter, number as nat),
            Call::Pushed(queue, job) => self.with_waiting(
                queue,
                (self.waiting)(queue).push(job),
            ),
            Call::Stole(queue, Steal::Success(_)) => self.with_waiting(
                queue,
                (self.waiting)(queue).drop_first(),
            ),
            Call::Popped(queue, Some(_)) => self.with_kept(queue, (self.kept)(queue).drop_last()),
            Call::Robbed(handle, Steal::Success(_)) => self.with_kept(
                (self.behind)(handle),
                (self.kept)((self.behind)(handle)).drop_first(),
            ),
            Call::Stored(flag, value) => self.with_flag(flag, value),
            Call::Added(counter, amount, _) => self.with_count(
                counter,
                (self.count)(counter) + amount as nat,
            ),
            _ => self,
        }
    }

    /// The world after the calls.
    pub open spec fn after_all(self, calls: Seq<Call<J>>) -> World<J>
        decreases calls.len(),
    {
        if calls.len() == 0 {
            self
        } else {
            self.after_all(calls.drop_last()).after(calls.last())
        }
    }

    /// Every one of the calls has answered what was true when it was made.
    pub open spec fn bears_all(self, calls: Seq<Call<J>>) -> bool
        decreases calls.len(),
    {
        calls.len() > 0 ==> {
            &&& self.bears_all(calls.drop_last())
            &&& self.after_all(calls.drop_last()).bears(calls.last())
        }
    }

    /// The two worlds agree on everything.
    pub open spec fn agrees(self, other: World<J>) -> bool {
        &&& forall|queue: Injector<J>| #[trigger] (self.waiting)(queue) == (other.waiting)(queue)
        &&& forall|queue: LocalQueue<J>| #[trigger] (self.kept)(queue) == (other.kept)(queue)
        &&& forall|handle: Stealer<J>| #[trigger] (self.behind)(handle) == (other.behind)(handle)
        &&& forall|flag: Flag| #[trigger] (self.up)(flag) == (other.up)(flag)
        &&& forall|counter: Counter| #[trigger] (self.count)(counter) == (other.count)(counter)
    }
}

/// What two sequences have behind the same front is the same if they are.
pub proof fn lemma_same_tail<T>(front: Seq<T>, one: Seq<T>, other: Seq<T>)
    requires
        front + one == front + other,
    ensures
        one == other,
{
    assert((front + one).len() == front.len() + one.len());
    assert((front + other).len() == front.len() + other.len());
    assert forall|i: int| 0 <= i < one.len() implies one[i] == other[i] by {
        assert((front + one)[front.len() + i] == one[i]);
        assert((front + other)[front.len() + i] == other[i]);
    }
    assert(one =~= other);
}

/// An open pool accepts every job. The job is then the last that waits in the global queue, behind
/// all that waited there; one ticket has been drawn; and nothing else has changed, in particular no
/// job has been taken out of any queue. The worker to wake is the number of tickets drawn before,
/// modulo the number of workers.
pub proof fn law_accepted_job_waits_behind_the_others<J>(
    world: World<J>,
    pool: Pool<J>,
    job: J,
    calls: Seq<Call<J>>,
    submitted: Result<usize, PoolError>,
)
    requires
        !pool.is_closed(),
        exists|journal: &mut Journal<J>|
            final(journal).calls() == journal.calls() + calls && #[trigger] call_ensures(
                Pool::<J>::submit,
                (&pool, job, journal),
                submitted,
            ),
        world.bears_all(calls),
    ensures
        world.after_all(calls).agrees(
            world.with_waiting(pool.queue(), (world.waiting)(pool.queue()).push(job)).with_count(
                pool.tickets(),
                (world.count)(pool.tickets()) + 1,
            ),
        ),
        submitted matches Ok(worker) && worker == wrapped((world.count)(pool.tickets()))
            % pool.size(),
{
    law_submission_pushes_once_and_draws_once(pool, job, calls, submitted);
    lemma_joins_the_queue(world, pool, job, calls, submitted);
}

/// The calls push the job onto the pool's queue and draw a ticket, which names the worker.
spec fn joins_the_queue<J>(
    pool: Pool<J>,
    job: J,
    calls: Seq<Call<J>>,
    submitted: Result<usize, PoolError>,
) -> bool {
    &&& calls.len() == 2
    &&& calls[0] == Call::Pushed(pool.queue(), job)
    &&& submitted is Ok
    &&& calls[1] matches Call::Added(counter, amount, ticket) && counter == pool.tickets()
        && amount == 1 && submitted->Ok_0 == ticket as nat % pool.size()
}

proof fn lemma_joins_the_queue<J>(
    world: World<J>,
    pool: Pool<J>,
    job: J,
    calls: Seq<Call<J>>,
    submitted: Result<usize, PoolError>,
)
    requires
        joins_the_queue(pool, job, calls, submitted),
        world.bears_all(calls),
    ensures
        world.after_all(calls).agrees(
            world.with_waiting(pool.queue(), (world.waiting)(pool.queue()).push(job)).with_count(
                pool.tickets(),
                (world.count)(pool.tickets()) + 1,
            ),
        ),
        submitted->Ok_0 == wrapped((world.count)(pool.tickets())) % pool.size(),
{
    let first = calls.drop_last();
    assert(first.drop_last() =~= Seq::empty());
    assert(first.last() == calls[0]);
    assert(calls.last() == calls[1]);
    assert(world.after_all(first.drop_last()) == world);
}

/// What the submission of a job calls, whatever the answers are and whoever else calls: the job is
/// pushed onto the pool's queue, one is added to the counter of tickets, and that is all. A closed
/// pool makes no call and refuses.
pub proof fn law_submission_pushes_once_and_draws_once<J>(
    pool: Pool<J>,
    job: J,
    calls: Seq<Call<J>>,
    submitted: Result<usize, PoolError>,
)
    requires
        exists|journal: &mut Journal<J>|
            final(journal).calls() == journal.calls() + calls && #[trigger] call_ensures(
                Pool::<J>::submit,
                (&pool, job, journal),
                submitted,
            ),
    ensures
        if pool.is_closed() {
            calls.len() == 0 && submitted == Err::<usize, PoolError>(PoolError::SendError)
        } else {
            &&& calls.len() == 2
            &&& calls[0] == Call::Pushed(pool.queue(), job)
            &&& submitted is Ok
            &&& calls[1] matches Call::Added(counter, amount, ticket) && counter
                == pool.tickets() && amount == 1 && submitted->Ok_0 == ticket as nat % pool.size()
        },
{
    let journal = choose|journal: &mut Journal<J>|
        final(journal).calls() == journal.calls() + calls && #[trigger] call_ensures(
            Pool::<J>::submit,
            (&pool, job, journal),
            submitted,
        );
    let made = choose|made: Seq<Call<J>>| #[trigger]
        pool.submission(job, made, submitted) && final(journal).calls() == journal.calls() + made;
    lemma_same_tail(journal.calls(), calls, made);
}

proof fn lemma_after_joined<J>(world: World<J>, first: Seq<Call<J>>, second: Seq<Call<J>>)
    ensures
        world.after_all(first + second) == world.after_all(first).after_all(second),
        world.bears_all(first + second) == (world.bears_all(first) && world.after_all(
            first,
        ).bears_all(second)),
    decreases second.len(),
{
    if second.len() == 0 {
        assert(first + second =~= first);
    } else {
        lemma_after_joined(world, first, second.drop_last());
        assert((first + second).drop_last() =~= first + second.drop_last());
        assert((first + second).last() == second.last());
    }
}

proof fn lemma_submissions<J>(
    world: World<J>,
    pool: Pool<J>,
    jobs: Seq<J>,
    records: Seq<Seq<Call<J>>>,
    submitted: Seq<Result<usize, PoolError>>,
    n: int,
)
    requires
        !pool.is_closed(),
        jobs.len() == records.len() == submitted.len(),
        forall|i: int|
            0 <= i < jobs.len() ==> #[trigger] joins_the_queue(
                pool,
                jobs[i],
                records[i],
                submitted[i],
            ),
        0 <= n <= jobs.len(),
        world.bears_all(joined(records.take(n))),
    ensures
        (world.after_all(joined(records.take(n))).waiting)(pool.queue()) == (world.waiting)(
            pool.queue(),
        ) + jobs.take(n),
        (world.after_all(joined(records.take(n))).count)(pool.tickets()) == (world.count)(
            pool.tickets(),
        ) + n,
    decreases n,
{
    let queue = (world.waiting)(pool.queue());
    if n == 0 {
        assert(queue + jobs.take(0) =~= queue);
    } else {
        let last = n - 1;
        let rest = records.take(last);
        assert(records.take(n).drop_last() =~= rest);
        assert(records.take(n).last() == records[last]);
        lemma_after_joined(world, joined(rest), records[last]);
        lemma_submissions(world, pool, jobs, records, submitted, last);
        assert(joins_the_queue(pool, jobs[last], records[last], submitted[last]));
        lemma_joins_the_queue(
            world.after_all(joined(rest)),
            pool,
            jobs[last],
            records[last],
            submitted[last],
        );
        assert(queue + jobs.take(n) =~= (queue + jobs.take(last)).push(jobs[last]));
    }
}

proof fn lemma_wakes_in_turn<J>(
    world: World<J>,
    pool: Pool<J>,
    jobs: Seq<J>,
    records: Seq<Seq<Call<J>>>,
    submitted: Seq<Result<usize, PoolError>>,
    n: int,
    k: int,
)
    requires
        !pool.is_closed(),
        jobs.len() == records.len() == submitted.len(),
        forall|i: int|
            0 <= i < jobs.len() ==> #[trigger] joins_the_queue(
                pool,
                jobs[i],
                records[i],
                submitted[i],
            ),
        0 <= k < n <= jobs.len(),
        k <= usize::MAX,
        (world.count)(pool.tickets()) == 0,
        world.bears_all(joined(records.take(n))),
    ensures
        submitted[k] is Ok,
        submitted[k]->Ok_0 == k % pool.size() as int,
    decreases n,
{
    let last = n - 1;
    let rest = records.take(last);
    assert(records.take(n).drop_last() =~= rest);
    assert(records.take(n).last() == records[last]);
    lemma_after_joined(world, joined(rest), records[last]);
    if k < last {
        lemma_wakes_in_turn(world, pool, jobs, records, submitted, last, k);
    } else {
        lemma_submissions(world, pool, jobs, records, submitted, last);
        assert(joins_the_queue(pool, jobs[last], records[last], submitted[last]));
        lemma_joins_the_queue(
            world.after_all(joined(rest)),
            pool,
            jobs[last],
            records[last],
            submitted[last],
        );
        vstd::arithmetic::div_mod::lemma_small_mod(k as nat, usize::MAX as nat + 1);
    }
}

/// Jobs queue up in the order of submission, and the workers are woken in turn: if jobs are
/// submitted to an open pool, one after the other and before any is taken, and no ticket was drawn
/// before, then the queue holds them in this order behind what it held, and the job with the number
/// `k`, counted from zero, has woken the worker `k % size`.
pub proof fn law_submissions_queue_up_and_wake_in_turn<J>(
    world: World<J>,
    pool: Pool<J>,
    jobs: Seq<J>,
    records: Seq<Seq<Call<J>>>,
    submitted: Seq<Result<usize, PoolError>>,
    k: int,
)
    requires
        !pool.is_closed(),
        jobs.len() == records.len() == submitted.len(),
        forall|i: int|
            0 <= i < jobs.len() ==> exists|journal: &mut Journal<J>|
                final(journal).calls() == journal.calls() + #[trigger] records[i]
                    && #[trigger] call_ensures(
                    Pool::<J>::submit,
                    (&pool, jobs[i], journal),
                    submitted[i],
                ),
        world.bears_all(joined(records)),
        (world.count)(pool.tickets()) == 0,
        0 <= k < jobs.len(),
        k <= usize::MAX,
    ensures
        (world.after_all(joined(records)).waiting)(pool.queue()) == (world.waiting)(pool.queue())
            + jobs,
        submitted[k] is Ok,
        submitted[k]->Ok_0 == k % pool.size() as int,
{
    assert forall|i: int| 0 <= i < jobs.len() implies #[trigger] joins_the_queue(
        pool,
        jobs[i],
        records[i],
        submitted[i],
    ) by {
        law_submission_pushes_once_and_draws_once(pool, jobs[i], records[i], submitted[i]);
    }
    assert(records.take(jobs.len() as int) =~= records);
    assert(jobs.take(jobs.len() as int) =~= jobs);
    lemma_submissions(world, pool, jobs, records, submitted, jobs.len() as int);
    lemma_wakes_in_turn(world, pool, jobs, records, submitted, jobs.len() as int, k);
}

/// Closing a pool raises its flag and changes nothing else in the world, names every worker to be
/// woken, once each and in order, and leaves the pool as it was, but closed: whatever is then
/// submitted is refused without a call.
pub proof fn law_closing_raises_the_flag_and_wakes_all<J>(
    world: World<J>,
    before: Pool<J>,
    after: Pool<J>,
    calls: Seq<Call<J>>,
    wake: Vec<usize>,
)
    requires
        exists|pool: &mut Pool<J>, journal: &mut Journal<J>|
            *pool == before && *final(pool) == after && final(journal).calls() == journal.calls()
                + calls && #[trigger] call_ensures(Pool::<J>::close, (pool, journal), wake),
    ensures
        calls.len() == 1,
        calls[0] == Call::<J>::Stored(before.flag(), true),
        world.after_all(calls).agrees(world.with_flag(before.flag(), true)),
        wake@.len() == before.size(),
        forall|i: int| 0 <= i < wake@.len() ==> #[trigger] wake@[i] == i,
        after.is_closed(),
        after.queue() == before.queue(),
        after.flag() == before.flag(),
        after.tickets() == before.tickets(),
        after.counters() == before.counters(),
{
    let (pool, journal) = choose|pool: &mut Pool<J>, journal: &mut Journal<J>|
        *pool == before && *final(pool) == after && final(journal).calls() == journal.calls()
            + calls && #[trigger] call_ensures(Pool::<J>::close, (pool, journal), wake);
    let made = seq![Call::<J>::Stored(before.flag(), true)];
    assert(journal.calls() + made =~= journal.calls().push(made[0]));
    lemma_same_tail(journal.calls(), calls, made);
    assert(calls.drop_last() =~= Seq::empty());
    assert(world.after_all(calls.drop_last()) == world);
}

/// The report has one line for each worker, in order, which names the worker and the count that
/// its counter stands at; and reading the counts changes nothing.
pub proof fn law_report_tells_the_counts<J>(
    world: World<J>,
    pool: Pool<J>,
    calls: Seq<Call<J>>,
    lines: Vec<String>,
    i: int,
)
    requires
        exists|journal: &mut Journal<J>|
            final(journal).calls() == journal.calls() + calls && #[trigger] call_ensures(
                Pool::<J>::tally,
                (&pool, journal),
                lines,
            ),
        world.bears_all(calls),
        0 <= i < pool.size(),
    ensures
        lines@.len() == pool.size(),
        world.after_all(calls) == world,
        exists|worker: Seq<char>, jobs: Seq<char>|
            {
                &&& lines@[i]@ == "Worker "@ + worker + " completed "@ + jobs + " tasks"@
                &&& #[trigger] numeral(worker)
                &&& value(worker) == i
                &&& #[trigger] numeral(jobs)
                &&& value(jobs) == wrapped((world.count)(pool.counters()[i]))
            },
{
    let journal = choose|journal: &mut Journal<J>|
        final(journal).calls() == journal.calls() + calls && #[trigger] call_ensures(
            Pool::<J>::tally,
            (&pool, journal),
            lines,
        );
    let made = choose|made: Seq<Call<J>>|
        {
            &&& final(journal).calls() == #[trigger] (journal.calls() + made)
            &&& made.len() == pool.size()
            &&& forall|k: int|
                0 <= k < made.len() ==> pool.reports(k, #[trigger] made[k], lines@[k]@)
        };
    lemma_same_tail(journal.calls(), calls, made);
    assert forall|k: int| 0 <= k < calls.len() implies #[trigger] calls[k] is Counted by {
        assert(pool.reports(k, calls[k], lines@[k]@));
    }
    lemma_reading_changes_nothing(world, calls);
    lemma_reading_bears(world, calls, i);
    assert(pool.reports(i, calls[i], lines@[i]@));
    law_numbers_read_back(i as nat);
    law_numbers_read_back(wrapped((world.count)(pool.counters()[i])));
}

proof fn lemma_reading_changes_nothing<J>(world: World<J>, calls: Seq<Call<J>>)
    requires
        forall|k: int| 0 <= k < calls.len() ==> #[trigger] calls[k] is Counted,
    ensures
        world.after_all(calls) == world,
    decreases calls.len(),
{
    if calls.len() > 0 {
        assert(calls.last() is Counted) by {
            assert(calls.last() == calls[calls.len() - 1]);
        }
        assert forall|k: int| 0 <= k < calls.drop_last().len() implies
            #[trigger] calls.drop_last()[k] is Counted by {
            assert(calls[k] is Counted);
        }
        lemma_reading_changes_nothing(world, calls.drop_last());
    }
}

proof fn lemma_reading_bears<J>(world: World<J>, calls: Seq<Call<J>>, i: int)
    requires
        forall|k: int| 0 <= k < calls.len() ==> #[trigger] calls[k] is Counted,
        world.bears_all(calls),
        0 <= i < calls.len(),
    ensures
        world.bears(calls[i]),
    decreases calls.len(),
{
    let rest = calls.drop_last();
    assert forall|k: int| 0 <= k < rest.len() implies #[trigger] rest[k] is Counted by {
        assert(calls[k] is Counted);
    }
    lemma_reading_changes_nothing(world, rest);
    if i < rest.len() {
        lemma_reading_bears(world, rest, i);
        assert(rest[i] == calls[i]);
    }
}

/// What the report states of each worker is what its counter was read to stand at, once each and in
/// order, whoever else counts; nothing else is called.
pub proof fn law_report_states_what_was_read<J>(
    pool: Pool<J>,
    calls: Seq<Call<J>>,
    lines: Vec<String>,
    i: int,
)
    requires
        exists|journal: &mut Journal<J>|
            final(journal).calls() == journal.calls() + calls && #[trigger] call_ensures(
                Pool::<J>::tally,
                (&pool, journal),
                lines,
            ),
        0 <= i < pool.size(),
    ensures
        lines@.len() == pool.size(),
        calls.len() == pool.size(),
        calls[i] matches Call::Counted(counter, number) && counter == pool.counters()[i]
            && exists|worker: Seq<char>, jobs: Seq<char>|
            {
                &&& lines@[i]@ == "Worker "@ + worker + " completed "@ + jobs + " tasks"@
                &&& #[trigger] numeral(worker)
                &&& value(worker) == i
                &&& #[trigger] numeral(jobs)
                &&& value(jobs) == number
            },
{
    let journal = choose|journal: &mut Journal<J>|
        final(journal).calls() == journal.calls() + calls && #[trigger] call_ensures(
            Pool::<J>::tally,
            (&pool, journal),
            lines,
        );
    let made = choose|made: Seq<Call<J>>|
        {
            &&& final(journal).calls() == #[trigger] (journal.calls() + made)
            &&& made.len() == pool.size()
            &&& forall|k: int|
                0 <= k < made.len() ==> pool.reports(k, #[trigger] made[k], lines@[k]@)
        };
    lemma_same_tail(journal.calls(), calls, made);
    assert(pool.reports(i, calls[i], lines@[i]@));
    law_numbers_read_back(i as nat);
    law_numbers_read_back(calls[i]->Counted_1 as nat);
}

/// Submitting to a pool is what the laws above speak of, and its answer is a worker of the pool if
/// and only if the pool is open.
pub proof fn law_execute_is_a_submission<J>(
    pool: ThreadPool<J>,
    job: J,
    submitted: Result<usize, PoolError>,
)
    requires
        call_ensures(ThreadPool::<J>::execute, (&pool, job), submitted),
    ensures
        exists|journal: &mut Journal<J>, calls: Seq<Call<J>>|
            final(journal).calls() == #[trigger] (journal.calls() + calls)
                && #[trigger] call_ensures(
                Pool::<J>::submit,
                (&pool.parts(), job, journal),
                submitted,
            ),
        match submitted {
            Ok(worker) => !pool.is_closed() && worker < pool.size(),
            Err(error) => pool.is_closed() && error == PoolError::SendError,
        },
{
    let journal = choose|journal: &mut Journal<J>| #[trigger]
        call_ensures(Pool::<J>::submit, (&pool.parts(), job, journal), submitted);
    let calls = choose|calls: Seq<Call<J>>| #[trigger]
        pool.parts().submission(job, calls, submitted) && final(journal).calls()
            == journal.calls() + calls;
    assert(final(journal).calls() == journal.calls() + calls);
}

/// The report of a pool is what the laws above speak of.
pub proof fn law_report_is_a_tally<J>(pool: ThreadPool<J>, lines: Vec<String>)
    requires
        call_ensures(ThreadPool::<J>::report, (&pool,), lines),
    ensures
        exists|journal: &mut Journal<J>, calls: Seq<Call<J>>|
            final(journal).calls() == #[trigger] (journal.calls() + calls)
                && #[trigger] call_ensures(Pool::<J>::tally, (&pool.parts(), journal), lines),
        lines@.len() == pool.size(),
{
}

/// After a shutdown nothing is accepted any more, and all workers are named to be woken.
pub proof fn law_nothing_is_accepted_after_a_shutdown<J>(
    before: ThreadPool<J>,
    after: ThreadPool<J>,
    wake: Vec<usize>,
    job: J,
    submitted: Result<usize, PoolError>,
)
    requires
        exists|pool: &mut ThreadPool<J>|
            *pool == before && *final(pool) == after && #[trigger] call_ensures(
                ThreadPool::<J>::shutdown,
                (pool,),
                wake,
            ),
        call_ensures(ThreadPool::<J>::execute, (&after, job), submitted),
    ensures
        submitted == Err::<usize, PoolError>(PoolError::SendError),
        wake@.len() == before.size(),
        forall|i: int| 0 <= i < wake@.len() ==> #[trigger] wake@[i] == i,
        exists|pool: &mut Pool<J>, journal: &mut Journal<J>|
            *pool == before.parts() && *final(pool) == after.parts() && final(journal).calls()
                == journal.calls().push(Call::Stored(before.parts().flag(), true))
                && #[trigger] call_ensures(Pool::<J>::close, (pool, journal), wake),
{
}

/// What a submission does to the queue in such a world is what the event of a submission does to
/// the queue in the life of the pool.
pub proof fn law_submission_is_the_event_on_the_queue<J>(
    world: World<J>,
    fleet: Fleet<J>,
    pool: Pool<J>,
    job: J,
    calls: Seq<Call<J>>,
    submitted: Result<usize, PoolError>,
)
    requires
        !pool.is_closed(),
        exists|journal: &mut Journal<J>|
            final(journal).calls() == journal.calls() + calls && #[trigger] call_ensures(
                Pool::<J>::submit,
                (&pool, job, journal),
                submitted,
            ),
        world.bears_all(calls),
        (world.waiting)(pool.queue()) == fleet.queue,
        (world.count)(pool.tickets()) == fleet.tickets,
        fleet.hands.len() == pool.size() > 0,
        !fleet.closed,
    ensures
        submitted is Ok,
        fleet.allows(Event::Submit(job, submitted->Ok_0 as int)),
        (world.after_all(calls).waiting)(pool.queue()) == fleet.after(
            Event::Submit(job, submitted->Ok_0 as int),
        ).queue,
        (world.after_all(calls).waiting)(pool.queue()) == fleet.queue.push(job),
        (world.after_all(calls).count)(pool.tickets()) == fleet.after(
            Event::Submit(job, submitted->Ok_0 as int),
        ).tickets,
{
    law_accepted_job_waits_behind_the_others(world, pool, job, calls, submitted);
    vstd::arithmetic::div_mod::lemma_mod_bound(
        wrapped(fleet.tickets) as int,
        pool.size() as int,
    );
}

} // verus!
