//! What a pool is like when it has just been built.

use vstd::prelude::*;

use core_affinity::CoreId;
use crossbeam_deque::{Stealer, Worker as LocalQueue};

use crate::conduct::{law_turn_in_a_still_world, position};
use crate::effects::{lemma_same_tail, World};
use crate::entry::journal::{Call, Journal};
use crate::entry::{known_cores, stations_of, ThreadPool, Yard};
use crate::error::PoolError;
use crate::patrol::Action;
use crate::pool::{law_pools_are_apart, law_workers_are_apart, Pool};
use crate::worker::Worker;

verus! {

/// The core that worker `i` is to be pinned to if the machine has these: worker `i` has core `i`,
/// and if there are more workers than cores, they begin with the first core again.
pub open spec fn core_of(i: int, cores: Seq<CoreId>, target: Option<CoreId>) -> bool {
    if cores.len() == 0 {
        target is None
    } else {
        target == Some(cores[i % cores.len() as int])
    }
}

/// This is the worker with the number `i` of the pool: it has the pool's queue and flag, its own
/// counter, the core that is its turn, and a handle for every worker; and it has not done anything
/// yet.
pub open spec fn fits_in<J>(
    pool: ThreadPool<J>,
    worker: Worker<J>,
    i: int,
    cores: Seq<CoreId>,
) -> bool {
    &&& worker.station().number() == i
    &&& worker.station().global() == pool.parts().queue()
    &&& worker.station().flag() == pool.parts().flag()
    &&& worker.station().counter() == pool.parts().counters()[i]
    &&& core_of(i, cores, worker.station().target())
    &&& worker.station().peers().len() == pool.size()
    &&& worker.dutiful()
    &&& worker.calls().len() == 0
    &&& position(worker.patrol()) == 0
    &&& worker.patrol().spins == 0
}

/// This handle is a clone of one that was made of this queue.
pub open spec fn steals_from<J>(stealer: Stealer<J>, queue: LocalQueue<J>) -> bool {
    exists|handle: Stealer<J>|
        call_ensures(LocalQueue::<J>::stealer, (&queue,), handle) && #[trigger] cloned(
            handle,
            stealer,
        )
}

/// The pool is open and has as many workers as it should; each fits in, each can steal from each by
/// its number, and no two share a queue of their own or a counter.
pub open spec fn well_staffed<J>(
    pool: ThreadPool<J>,
    crew: Seq<Worker<J>>,
    size: usize,
    cores: Seq<CoreId>,
) -> bool {
    &&& size > 0
    &&& crew.len() == size
    &&& pool.size() == size
    &&& !pool.is_closed()
    &&& forall|i: int| 0 <= i < size ==> fits_in(pool, #[trigger] crew[i], i, cores)
    &&& forall|i: int, j: int|
        0 <= i < size && 0 <= j < size ==> steals_from(
            #[trigger] crew[i].station().peers()[j],
            crew[j].station().own(),
        )
    &&& forall|i: int, j: int|
        0 <= i < size && 0 <= j < size && i != j ==> #[trigger] crew[i].station().own()
            != #[trigger] crew[j].station().own()
    &&& forall|i: int, j: int|
        0 <= i < size && 0 <= j < size && i != j ==> #[trigger] pool.parts().counters()[i]
            != #[trigger] pool.parts().counters()[j]
    &&& forall|i: int|
        0 <= i < size ==> #[trigger] pool.parts().counters()[i] != pool.parts().tickets()
}

/// In this world nothing waits anywhere, the flag is down and all counts are zero.
pub open spec fn untouched<J>(
    world: World<J>,
    pool: ThreadPool<J>,
    crew: Seq<Worker<J>>,
) -> bool {
    &&& (world.waiting)(pool.parts().queue()).len() == 0
    &&& !(world.up)(pool.parts().flag())
    &&& (world.count)(pool.parts().tickets()) == 0
    &&& forall|i: int|
        0 <= i < pool.size() ==> (world.count)(#[trigger] pool.parts().counters()[i]) == 0
    &&& forall|i: int|
        0 <= i < crew.len() ==> (world.kept)(#[trigger] crew[i].station().own()).len() == 0
}

/// The call makes something that begins empty, down or at zero.
spec fn makes_blank<J>(call: Call<J>) -> bool {
    match call {
        Call::MadeQueue(_) => true,
        Call::MadeLocal(_) => true,
        Call::MadeFlag(_, value) => !value,
        Call::MadeCounter(_, number) => number == 0,
        Call::ListedCores(_) => true,
        _ => false,
    }
}

proof fn lemma_blank<J>(world: World<J>, calls: Seq<Call<J>>, k: int)
    requires
        forall|i: int| 0 <= i < calls.len() ==> makes_blank(#[trigger] calls[i]),
        0 <= k < calls.len(),
    ensures
        ({
            let next = world.after_all(calls);
            match calls[k] {
                Call::MadeQueue(queue) => (next.waiting)(queue).len() == 0,
                Call::MadeLocal(queue) => (next.kept)(queue).len() == 0,
                Call::MadeFlag(flag, _) => !(next.up)(flag),
                Call::MadeCounter(counter, _) => (next.count)(counter) == 0,
                _ => true,
            }
        }),
    decreases calls.len(),
{
    let rest = calls.drop_last();
    assert(calls.last() == calls[calls.len() - 1]);
    if k < rest.len() {
        assert forall|i: int| 0 <= i < rest.len() implies makes_blank(#[trigger] rest[i]) by {
            assert(rest[i] == calls[i]);
        }
        lemma_blank(world, rest, k);
        assert(rest[k] == calls[k]);
    }
}

proof fn lemma_made<J>(
    world: World<J>,
    pool: ThreadPool<J>,
    crew: Seq<Worker<J>>,
    size: usize,
    cores: Seq<CoreId>,
    before: Seq<Call<J>>,
    after: Seq<Call<J>>,
    calls: Seq<Call<J>>,
    skipped: int,
)
    requires
        size > 0,
        pool.size() == size,
        !pool.is_closed(),
        pool.staffed_by(crew, cores),
        pool.parts().made_between(stations_of(crew), before, after),
        0 <= skipped <= calls.len(),
        calls.skip(skipped) == pool.parts().making(stations_of(crew)),
        forall|i: int| 0 <= i < skipped ==> makes_blank(#[trigger] calls[i]),
    ensures
        well_staffed(pool, crew, size, cores),
        untouched(world.after_all(calls), pool, crew),
{
    let stations = stations_of(crew);
    let parts = pool.parts();
    let making = parts.making(stations);
    assert forall|i: int| 0 <= i < size implies fits_in(pool, #[trigger] crew[i], i, cores) by {
        assert(stations[i] == crew[i].station());
        assert(parts.equips(i, stations[i], cores));
        assert(crate::entry::joined_now(crew[i]));
    }
    assert forall|i: int, j: int| 0 <= i < size && 0 <= j < size implies steals_from(
        #[trigger] crew[i].station().peers()[j],
        crew[j].station().own(),
    ) by {
        assert(stations[i] == crew[i].station());
        assert(stations[j] == crew[j].station());
        assert(crate::pool::leads_to(stations[i].peers()[j], stations[j].own()));
    }
    assert forall|i: int, j: int| 0 <= i < size && 0 <= j < size && i != j implies
        #[trigger] crew[i].station().own() != #[trigger] crew[j].station().own() by {
        law_workers_are_apart(parts, stations, before, after, i, j);
        assert(stations[i] == crew[i].station());
        assert(stations[j] == crew[j].station());
    }
    assert forall|i: int, j: int| 0 <= i < size && 0 <= j < size && i != j implies
        #[trigger] parts.counters()[i] != #[trigger] parts.counters()[j] by {
        law_workers_are_apart(parts, stations, before, after, i, j);
    }
    assert forall|i: int| 0 <= i < size implies #[trigger] parts.counters()[i]
        != parts.tickets() by {
        law_workers_are_apart(parts, stations, before, after, i, i);
    }

    assert forall|i: int| 0 <= i < calls.len() implies makes_blank(#[trigger] calls[i]) by {
        if i >= skipped {
            assert(calls[i] == calls.skip(skipped)[i - skipped]);
            assert(calls[i] == making[i - skipped]);
        }
    }
    assert(calls[skipped] == making[0]) by {
        assert(calls.skip(skipped)[0] == calls[skipped]);
    }
    assert(calls[skipped + 1] == making[1]) by {
        assert(calls.skip(skipped)[1] == calls[skipped + 1]);
    }
    assert(calls[skipped + 2] == making[2]) by {
        assert(calls.skip(skipped)[2] == calls[skipped + 2]);
    }
    lemma_blank(world, calls, skipped);
    lemma_blank(world, calls, skipped + 1);
    lemma_blank(world, calls, skipped + 2);
    let next = world.after_all(calls);
    assert forall|i: int| 0 <= i < size implies (next.count)(#[trigger] parts.counters()[i])
        == 0 by {
        assert(calls.skip(skipped)[4 + 2 * i] == calls[skipped + 4 + 2 * i]);
        assert(making[4 + 2 * i] == Call::<J>::MadeCounter(parts.counters()[i], 0));
        lemma_blank(world, calls, skipped + 4 + 2 * i);
    }
    assert forall|i: int| 0 <= i < crew.len() implies (next.kept)(
        #[trigger] crew[i].station().own(),
    ).len() == 0 by {
        assert(stations[i] == crew[i].station());
        assert(calls.skip(skipped)[3 + 2 * i] == calls[skipped + 3 + 2 * i]);
        assert(making[3 + 2 * i] == Call::MadeLocal(stations[i].own()));
        lemma_blank(world, calls, skipped + 3 + 2 * i);
    }
}

/// A pool of no workers is refused, and nothing is made or asked for it. Every other pool is built:
/// the machine is asked for its cores, once; if it answers with some, worker `i` is meant for the
/// core with the number `i`, modulo their number, of that answer; all workers are there, and
/// nothing has happened yet.
pub proof fn law_built_pool_is_well_staffed<J>(
    world: World<J>,
    size: usize,
    before: Seq<Call<J>>,
    calls: Seq<Call<J>>,
    built: Result<(ThreadPool<J>, Vec<Worker<J>>), PoolError>,
)
    requires
        exists|yard: &mut Yard<J>|
            yard.calls() == before && final(yard).calls() == before + calls
                && #[trigger] call_ensures(Yard::<J>::build, (yard, size), built),
    ensures
        match built {
            Err(error) => size == 0 && error == PoolError::ZeroWorkers && calls.len() == 0,
            Ok((pool, crew)) => {
                &&& calls.len() > 0
                &&& forall|i: int|
                    0 < i < calls.len() ==> !(#[trigger] calls[i] is ListedCores)
                &&& calls[0] matches Call::ListedCores(answer) && match answer {
                    Some(cores) => well_staffed(pool, crew@, size, cores@),
                    None => well_staffed(pool, crew@, size, Seq::empty()),
                }
                &&& untouched(world.after_all(calls), pool, crew@)
            },
        },
{
    let yard = choose|yard: &mut Yard<J>|
        yard.calls() == before && final(yard).calls() == before + calls && #[trigger] call_ensures(
            Yard::<J>::build,
            (yard, size),
            built,
        );
    match built {
        Err(_) => {
            assert(before + Seq::<Call<J>>::empty() =~= before);
            lemma_same_tail(before, calls, Seq::empty());
        },
        Ok((pool, crew)) => {
            let answer = choose|answer: Option<Vec<CoreId>>|
                {
                    &&& pool.staffed_by(crew@, #[trigger] known_cores(answer))
                    &&& pool.parts().made_between(
                        stations_of(crew@),
                        before.push(Call::ListedCores(answer)),
                        before + calls,
                    )
                };
            let making = pool.parts().making(stations_of(crew@));
            let made = seq![Call::<J>::ListedCores(answer)] + making;
            assert(before.push(Call::ListedCores(answer)) + making =~= before + made);
            lemma_same_tail(before, calls, made);
            assert(calls.skip(1) =~= making);
            lemma_made(
                world,
                pool,
                crew@,
                size,
                known_cores(answer),
                before.push(Call::ListedCores(answer)),
                before + calls,
                calls,
                1,
            );
            assert forall|i: int| 0 < i < calls.len() implies !(
            #[trigger] calls[i] is ListedCores) by {
                assert(calls[i] == making[i - 1]);
            }
        },
    }
}

/// The same of a pool that is built for given cores: worker `i` is meant for the core with the
/// number `i`, modulo their number, and the machine is not asked.
pub proof fn law_pool_with_cores_is_well_staffed<J>(
    world: World<J>,
    size: usize,
    core_ids: Vec<CoreId>,
    before: Seq<Call<J>>,
    calls: Seq<Call<J>>,
    built: Result<(ThreadPool<J>, Vec<Worker<J>>), PoolError>,
)
    requires
        exists|yard: &mut Yard<J>|
            yard.calls() == before && final(yard).calls() == before + calls
                && #[trigger] call_ensures(Yard::<J>::with_cores, (yard, size, core_ids), built),
    ensures
        match built {
            Err(error) => size == 0 && error == PoolError::ZeroWorkers && calls.len() == 0,
            Ok((pool, crew)) => {
                &&& forall|i: int|
                    0 <= i < calls.len() ==> !(#[trigger] calls[i] is ListedCores)
                &&& well_staffed(pool, crew@, size, core_ids@)
                &&& untouched(world.after_all(calls), pool, crew@)
            },
        },
{
    let yard = choose|yard: &mut Yard<J>|
        yard.calls() == before && final(yard).calls() == before + calls && #[trigger] call_ensures(
            Yard::<J>::with_cores,
            (yard, size, core_ids),
            built,
        );
    match built {
        Err(_) => {
            assert(before + Seq::<Call<J>>::empty() =~= before);
            lemma_same_tail(before, calls, Seq::empty());
        },
        Ok((pool, crew)) => {
            let making = pool.parts().making(stations_of(crew@));
            lemma_same_tail(before, calls, making);
            assert(calls.skip(0) =~= making);
            lemma_made(
                world,
                pool,
                crew@,
                size,
                core_ids@,
                before,
                before + calls,
                calls,
                0,
            );
            assert forall|i: int| 0 <= i < calls.len() implies !(
            #[trigger] calls[i] is ListedCores) by {
                assert(calls[i] == making[i]);
            }
        },
    }
}

/// A pool that is built on its own is built in a fresh yard: the laws above hold of it. It is
/// refused if and only if its size is zero, and it accepts whatever is submitted to it.
pub proof fn law_new_pool_accepts_jobs<J>(
    size: usize,
    built: Result<(ThreadPool<J>, Vec<Worker<J>>), PoolError>,
    job: J,
    submitted: Result<usize, PoolError>,
)
    requires
        call_ensures(ThreadPool::<J>::build, (size,), built),
        built matches Ok((pool, _)) ==> call_ensures(
            ThreadPool::<J>::execute,
            (&pool, job),
            submitted,
        ),
    ensures
        size == 0 <==> built is Err,
        built matches Err(error) ==> error == PoolError::ZeroWorkers,
        built is Ok ==> submitted is Ok && submitted->Ok_0 < size,
        exists|yard: &mut Yard<J>|
            yard.calls().len() == 0 && #[trigger] call_ensures(
                Yard::<J>::build,
                (yard, size),
                built,
            ),
{
}

/// A pool that is built on its own for given cores is built in a fresh yard.
pub proof fn law_pool_with_cores_is_built_in_a_yard<J>(
    size: usize,
    core_ids: Vec<CoreId>,
    built: Result<(ThreadPool<J>, Vec<Worker<J>>), PoolError>,
)
    requires
        call_ensures(ThreadPool::<J>::with_cores, (size, core_ids), built),
    ensures
        size == 0 <==> built is Err,
        exists|yard: &mut Yard<J>|
            yard.calls().len() == 0 && #[trigger] call_ensures(
                Yard::<J>::with_cores,
                (yard, size, core_ids),
                built,
            ),
{
}

/// A worker knows its number: the worker with the number `i` of a crew says so.
pub proof fn law_workers_know_their_number<J>(
    pool: ThreadPool<J>,
    crew: Seq<Worker<J>>,
    size: usize,
    cores: Seq<CoreId>,
    i: int,
    id: usize,
)
    requires
        well_staffed(pool, crew, size, cores),
        0 <= i < size,
        call_ensures(Worker::<J>::id, (&crew[i],), id),
    ensures
        id == i,
{
    assert(fits_in(pool, crew[i], i, cores));
}

/// A submitted job is there for any worker to run: if nothing else waits in the pool, the next turn
/// of any of its workers is told to run this job, whichever worker was named to be woken.
pub proof fn law_submitted_job_is_run_by_the_next_turn<J>(
    world: World<J>,
    pool: ThreadPool<J>,
    job: J,
    submission: Seq<Call<J>>,
    submitted: Result<usize, PoolError>,
    before: Worker<J>,
    after: Worker<J>,
    calls: Seq<Call<J>>,
    action: Action<J>,
)
    requires
        !pool.is_closed(),
        (world.waiting)(pool.parts().queue()).len() == 0,
        exists|journal: &mut Journal<J>|
            final(journal).calls() == journal.calls() + submission && #[trigger] call_ensures(
                Pool::<J>::submit,
                (&pool.parts(), job, journal),
                submitted,
            ),
        world.bears_all(submission),
        before.dutiful(),
        position(before.patrol()) == 0,
        before.station().global() == pool.parts().queue(),
        (world.kept)(before.station().own()).len() == 0,
        exists|worker: &mut Worker<J>|
            *worker == before && *final(worker) == after && #[trigger] call_ensures(
                Worker::<J>::turn,
                (worker,),
                action,
            ),
        after.calls() == before.calls() + calls,
        world.after_all(submission).bears_all(calls),
        !(action is Again),
    ensures
        submitted is Ok,
        action == Action::Run(job),
        (world.after_all(submission).after_all(calls).waiting)(pool.parts().queue()).len() == 0,
{
    let parts = pool.parts();
    crate::effects::law_accepted_job_waits_behind_the_others(
        world,
        parts,
        job,
        submission,
        submitted,
    );
    let between = world.after_all(submission);
    assert((between.waiting)(parts.queue()) == (world.waiting)(parts.queue()).push(job));
    assert((between.kept)(before.station().own()).len() == 0);
    law_turn_in_a_still_world(between, before, after, calls, action);
}

/// Two pools that are built in one yard, at whatever times, have no queue, no flag and no counter in
/// common, and no two of their workers have the same queue of their own.
pub proof fn law_two_built_pools_share_nothing<J>(
    start: Seq<Call<J>>,
    after_first: Seq<Call<J>>,
    meanwhile: Seq<Call<J>>,
    after_second: Seq<Call<J>>,
    first_size: usize,
    first: (ThreadPool<J>, Vec<Worker<J>>),
    second_size: usize,
    second: (ThreadPool<J>, Vec<Worker<J>>),
)
    requires
        exists|yard: &mut Yard<J>|
            yard.calls() == start && final(yard).calls() == after_first && #[trigger] call_ensures(
                Yard::<J>::build,
                (yard, first_size),
                Ok::<(ThreadPool<J>, Vec<Worker<J>>), PoolError>(first),
            ),
        exists|yard: &mut Yard<J>|
            yard.calls() == after_first + meanwhile && final(yard).calls() == after_second
                && #[trigger] call_ensures(
                Yard::<J>::build,
                (yard, second_size),
                Ok::<(ThreadPool<J>, Vec<Worker<J>>), PoolError>(second),
            ),
    ensures
        first.0.parts().queue() != second.0.parts().queue(),
        first.0.parts().flag() != second.0.parts().flag(),
        first.0.parts().tickets() != second.0.parts().tickets(),
        forall|i: int, j: int|
            0 <= i < first_size && 0 <= j < second_size
                ==> #[trigger] first.0.parts().counters()[i]
                != #[trigger] second.0.parts().counters()[j],
        forall|i: int, j: int|
            0 <= i < first_size && 0 <= j < second_size
                ==> #[trigger] first.1@[i].station().own()
                != #[trigger] second.1@[j].station().own(),
{
    let (pool, crew) = first;
    let (other, others) = second;
    let answer = choose|answer: Option<Vec<CoreId>>|
        {
            &&& pool.staffed_by(crew@, #[trigger] known_cores(answer))
            &&& pool.parts().made_between(
                stations_of(crew@),
                start.push(Call::ListedCores(answer)),
                after_first,
            )
        };
    let later = choose|answer: Option<Vec<CoreId>>|
        {
            &&& other.staffed_by(others@, #[trigger] known_cores(answer))
            &&& other.parts().made_between(
                stations_of(others@),
                (after_first + meanwhile).push(Call::ListedCores(answer)),
                after_second,
            )
        };
    let between = meanwhile.push(Call::ListedCores(later));
    assert((after_first + meanwhile).push(Call::ListedCores(later)) =~= after_first + between);
    law_pools_are_apart(
        pool.parts(),
        stations_of(crew@),
        other.parts(),
        stations_of(others@),
        start.push(Call::ListedCores(answer)),
        after_first,
        between,
        after_second,
    );
    assert forall|i: int, j: int| 0 <= i < first_size && 0 <= j < second_size implies
        #[trigger] crew@[i].station().own() != #[trigger] others@[j].station().own() by {
        assert(stations_of(crew@)[i] == crew@[i].station());
        assert(stations_of(others@)[j] == others@[j].station());
    }
}

} // verus!
