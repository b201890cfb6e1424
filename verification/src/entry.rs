//! The entry points. Each opens the journal that the functions behind it write to.
//!
//! The parts of a pool are private to [`pool`](crate::pool), so all that an entry point can do to
//! them is to call a function of that module; what such a function does is in its contract. An
//! entry point says which one it has called, as `call_ensures` of that function.

use vstd::prelude::*;

use core_affinity::CoreId;

use crate::entry::journal::{listed, Call, Journal};
use crate::error::PoolError;
use crate::patrol::Patrol;
use crate::pool::{storable, Pool};
use crate::station::{Post, Station};
use crate::worker::Worker;

pub mod journal;

verus! {

/// The worker has just joined and has made no call yet.
pub open spec fn joined_now<J>(worker: Worker<J>) -> bool {
    &&& worker.patrol() == Patrol::fresh()
    &&& worker.calls() == Seq::<Call<J>>::empty()
    &&& worker.dutiful()
}

/// Makes the worker of a station.
pub fn employ<J>(station: Station<J>) -> (worker: Worker<J>)
    ensures
        worker.station() == station,
        joined_now(worker),
{
    Worker::new(Post::new(station, Journal::new()))
}

/// The cores in an answer of `core_affinity::get_core_ids`, which may be missing.
pub open spec fn known_cores(answer: Option<Vec<CoreId>>) -> Seq<CoreId> {
    match answer {
        Some(core_ids) => core_ids@,
        None => Seq::empty(),
    }
}

/// The stations of these workers.
pub open spec fn stations_of<J>(crew: Seq<Worker<J>>) -> Seq<Station<J>> {
    crew.map_values(|worker: Worker<J>| worker.station())
}

/// A pool that takes jobs of type `J` and hands them to its workers.
///
/// Jobs may be submitted from several threads at once. The pool does not run threads: whoever
/// builds it gives each [`Worker`] a thread of its own and wakes the workers that the pool names.
#[verifier::reject_recursive_types(J)]
pub struct ThreadPool<J> {
    pool: Pool<J>,
}

/// A place where pools are built, with one record of all that was made for them. Pools of one yard
/// have nothing in common, as [`law_pools_are_apart`](crate::pool::law_pools_are_apart) shows.
#[verifier::reject_recursive_types(J)]
pub struct Yard<J> {
    journal: Journal<J>,
}

impl<J> Yard<J> {
    /// The calls that were made to build the pools.
    pub closed spec fn calls(&self) -> Seq<Call<J>> {
        self.journal.calls()
    }

    /// Opens a yard in which nothing was built yet.
    pub fn new() -> (yard: Yard<J>)
        ensures
            yard.calls() == Seq::<Call<J>>::empty(),
    {
        Yard { journal: Journal::new() }
    }

    /// Builds a pool of `size` workers, each of which is meant for one of the machine's cores.
    ///
    /// # Errors
    ///
    /// [`PoolError::ZeroWorkers`] if `size` is `0`; then nothing was made, and the machine was not
    /// asked for its cores.
    pub fn build(&mut self, size: usize) -> (built: Result<
        (ThreadPool<J>, Vec<Worker<J>>),
        PoolError,
    >)
        requires
            storable(size as nat),
        ensures
            match built {
                Ok((pool, crew)) => {
                    &&& size > 0
                    &&& pool.size() == size
                    &&& !pool.is_closed()
                    &&& exists|answer: Option<Vec<CoreId>>|
                        {
                            &&& pool.staffed_by(crew@, #[trigger] known_cores(answer))
                            &&& pool.parts().made_between(
                                stations_of(crew@),
                                old(self).calls().push(Call::ListedCores(answer)),
                                final(self).calls(),
                            )
                        }
                },
                Err(error) => {
                    &&& size == 0
                    &&& error == PoolError::ZeroWorkers
                    &&& final(self).calls() == old(self).calls()
                },
            },
    {
        if size == 0 {
            return Err(PoolError::ZeroWorkers);
        }
        let answer = self.journal.list_cores();
        let ghost asked = answer;
        let core_ids = match answer {
            Some(core_ids) => core_ids,
            None => Vec::new(),
        };
        assert(core_ids@ =~= known_cores(asked));
        self.with_cores(size, core_ids)
    }

    /// Builds a pool of `size` workers that are dealt out to the given cores.
    ///
    /// # Errors
    ///
    /// [`PoolError::ZeroWorkers`] if `size` is `0`; then nothing was made.
    pub fn with_cores(&mut self, size: usize, core_ids: Vec<CoreId>) -> (built: Result<
        (ThreadPool<J>, Vec<Worker<J>>),
        PoolError,
    >)
        requires
            storable(size as nat),
            forall|i: int| 0 <= i < core_ids@.len() ==> listed::<J>(#[trigger] core_ids@[i]),
        ensures
            match built {
                Ok((pool, crew)) => {
                    &&& size > 0
                    &&& pool.size() == size
                    &&& !pool.is_closed()
                    &&& pool.staffed_by(crew@, core_ids@)
                    &&& pool.parts().made_between(
                        stations_of(crew@),
                        old(self).calls(),
                        final(self).calls(),
                    )
                },
                Err(error) => {
                    &&& size == 0
                    &&& error == PoolError::ZeroWorkers
                    &&& final(self).calls() == old(self).calls()
                },
            },
    {
        match Pool::assemble(size, core_ids, &mut self.journal) {
            Err(error) => Err(error),
            Ok((pool, mut stations)) => {
                let ghost all = stations@;
                let mut crew: Vec<Worker<J>> = Vec::new();
                for i in 0..size
                    invariant
                        all.len() == size,
                        stations@ == all.skip(i as int),
                        crew@.len() == i,
                        forall|j: int|
                            0 <= j < i ==> (#[trigger] crew@[j]).station() == all[j] && joined_now(
                                crew@[j],
                            ),
                {
                    crew.push(employ(stations.remove(0)));
                }
                assert(stations_of(crew@) =~= all);
                Ok((ThreadPool { pool }, crew))
            },
        }
    }
}

impl<J> ThreadPool<J> {
    /// What the pool is made of.
    pub closed spec fn parts(&self) -> Pool<J> {
        self.pool
    }

    /// The number of workers.
    pub open spec fn size(&self) -> nat {
        self.parts().size()
    }

    /// The pool is shutting down and accepts no further job.
    pub open spec fn is_closed(&self) -> bool {
        self.parts().is_closed()
    }

    /// `crew` are all the workers of this pool, and they have just joined.
    pub open spec fn staffed_by(&self, crew: Seq<Worker<J>>, core_ids: Seq<CoreId>) -> bool {
        &&& self.parts().furnished(stations_of(crew), core_ids)
        &&& forall|i: int| 0 <= i < crew.len() ==> joined_now(#[trigger] crew[i])
    }

    /// Builds a pool of `size` workers, each of which is meant for one of the machine's cores, in
    /// a yard of its own.
    ///
    /// # Errors
    ///
    /// [`PoolError::ZeroWorkers`] if `size` is `0`.
    pub fn build(size: usize) -> (built: Result<(ThreadPool<J>, Vec<Worker<J>>), PoolError>)
        requires
            storable(size as nat),
        ensures
            exists|yard: &mut Yard<J>|
                yard.calls() == Seq::<Call<J>>::empty() && #[trigger] call_ensures(
                    Yard::<J>::build,
                    (yard, size),
                    built,
                ),
            match built {
                Ok((pool, crew)) => {
                    &&& size > 0
                    &&& pool.size() == size
                    &&& !pool.is_closed()
                    &&& exists|answer: Option<Vec<CoreId>>|
                        pool.staffed_by(crew@, #[trigger] known_cores(answer))
                },
                Err(error) => size == 0 && error == PoolError::ZeroWorkers,
            },
    {
        let mut yard = Yard::new();
        yard.build(size)
    }

    /// Builds a pool of `size` workers that are dealt out to the given cores, in a yard of its
    /// own.
    ///
    /// # Errors
    ///
    /// [`PoolError::ZeroWorkers`] if `size` is `0`.
    pub fn with_cores(size: usize, core_ids: Vec<CoreId>) -> (built: Result<
        (ThreadPool<J>, Vec<Worker<J>>),
        PoolError,
    >)
        requires
            storable(size as nat),
            forall|i: int| 0 <= i < core_ids@.len() ==> listed::<J>(#[trigger] core_ids@[i]),
        ensures
            exists|yard: &mut Yard<J>|
                yard.calls() == Seq::<Call<J>>::empty() && #[trigger] call_ensures(
                    Yard::<J>::with_cores,
                    (yard, size, core_ids),
                    built,
                ),
            match built {
                Ok((pool, crew)) => {
                    &&& size > 0
                    &&& pool.size() == size
                    &&& !pool.is_closed()
                    &&& pool.staffed_by(crew@, core_ids@)
                },
                Err(error) => size == 0 && error == PoolError::ZeroWorkers,
            },
    {
        let mut yard = Yard::new();
        yard.with_cores(size, core_ids)
    }

    /// Submits a job. The answer names the worker to wake, so that it goes and claims the job.
    ///
    /// # Errors
    ///
    /// [`PoolError::SendError`] if the pool is shutting down.
    pub fn execute(&self, job: J) -> (submitted: Result<usize, PoolError>)
        ensures
            exists|journal: &mut Journal<J>|
                call_ensures(Pool::<J>::submit, (&self.parts(), job, journal), submitted),
            exists|calls: Seq<Call<J>>| #[trigger] self.parts().submission(job, calls, submitted),
            match submitted {
                Ok(worker) => !self.is_closed() && worker < self.size(),
                Err(error) => self.is_closed() && error == PoolError::SendError,
            },
    {
        assert(self.parts() == self.pool);
        let mut journal = Journal::new();
        self.pool.submit(job, &mut journal)
    }

    /// Closes the pool: no further job is accepted, and the workers are told to leave once no
    /// job is left. The answer names the workers to wake, which are all.
    pub fn shutdown(&mut self) -> (wake: Vec<usize>)
        ensures
            old(self).parts().closes_as(&final(self).parts()),
            exists|pool: &mut Pool<J>, journal: &mut Journal<J>|
                *pool == old(self).parts() && *final(pool) == final(self).parts()
                    && #[trigger] call_ensures(Pool::<J>::close, (pool, journal), wake),
            wake@.len() == old(self).size(),
            forall|i: int| 0 <= i < wake@.len() ==> #[trigger] wake@[i] == i,
    {
        let mut journal = Journal::new();
        self.pool.close(&mut journal)
    }

    /// Writes one line for each worker on how many jobs it has completed so far.
    pub fn report(&self) -> (lines: Vec<String>)
        ensures
            exists|journal: &mut Journal<J>|
                call_ensures(Pool::<J>::tally, (&self.parts(), journal), lines),
            lines@.len() == self.size(),
            forall|i: int|
                0 <= i < lines@.len() ==> self.parts().reported(i, #[trigger] lines@[i]@),
    {
        let mut journal = Journal::new();
        let ghost before = journal.calls();
        let lines = self.pool.tally(&mut journal);
        proof {
            let calls = choose|calls: Seq<Call<J>>|
                {
                    &&& journal.calls() == #[trigger] (before + calls)
                    &&& calls.len() == self.size()
                    &&& forall|i: int|
                        0 <= i < calls.len() ==> self.parts().reports(
                            i,
                            #[trigger] calls[i],
                            lines@[i]@,
                        )
                };
            assert forall|i: int| 0 <= i < lines@.len() implies self.parts().reported(
                i,
                #[trigger] lines@[i]@,
            ) by {
                assert(self.parts().reports(i, calls[i], lines@[i]@));
            }
        }
        lines
    }
}

} // verus!
