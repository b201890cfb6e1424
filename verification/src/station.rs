//! A worker's station: its number, its core, and the shared things it works with.

use vstd::prelude::*;

use std::sync::Arc;

use core_affinity::CoreId;
use crossbeam_deque::{Injector, Steal, Stealer, Worker as LocalQueue};

use crate::affinity::{pin, pinning};
use crate::entry::journal::{listed, Call, Counter, Flag, Journal};
use crate::patrol::{Action, Patrol, Step};
use crate::search::{sources, Source};

verus! {

/// What a worker has at hand, from the time it joins the pool until it leaves.
#[verifier::reject_recursive_types(J)]
pub struct Station<J> {
    id: usize,
    local: LocalQueue<J>,
    injector: Arc<Injector<J>>,
    stealers: Vec<Stealer<J>>,
    shutdown: Arc<Flag>,
    task_count: Arc<Counter>,
    core: Option<CoreId>,
}

impl<J> Station<J> {
    /// The worker's number.
    pub closed spec fn number(&self) -> usize {
        self.id
    }

    /// The worker's own queue.
    pub closed spec fn own(&self) -> LocalQueue<J> {
        self.local
    }

    /// The queue that all jobs are submitted to.
    pub closed spec fn global(&self) -> Injector<J> {
        *self.injector
    }

    /// The handles on the queues of all workers, by number.
    pub closed spec fn peers(&self) -> Seq<Stealer<J>> {
        self.stealers@
    }

    /// The flag that says whether the pool is shutting down.
    pub closed spec fn flag(&self) -> Flag {
        *self.shutdown
    }

    /// The counter of the jobs that the worker has completed.
    pub closed spec fn counter(&self) -> Counter {
        *self.task_count
    }

    /// The core to pin the worker's thread to, if any.
    pub closed spec fn target(&self) -> Option<CoreId> {
        self.core
    }

    /// What the source answers by this call, if the call asks that source for a job. The own
    /// queue never asks to retry.
    pub open spec fn answer_in(&self, source: Source, call: Call<J>) -> Option<Steal<J>> {
        match source {
            Source::Own => match call {
                Call::Popped(queue, job) => if queue == self.own() {
                    Some(
                        match job {
                            Some(job) => Steal::Success(job),
                            None => Steal::Empty,
                        },
                    )
                } else {
                    None
                },
                _ => None,
            },
            Source::Global => match call {
                Call::Stole(queue, answer) => if queue == self.global() {
                    Some(answer)
                } else {
                    None
                },
                _ => None,
            },
            Source::Peer(i) => match call {
                Call::Robbed(handle, answer) => if handle == self.peers()[i as int] {
                    Some(answer)
                } else {
                    None
                },
                _ => None,
            },
        }
    }

    /// Where a worker stands, and what follows, after it has made this call. There is nothing to
    /// say if this is not the call that is due: to begin a search, the shutdown flag is read; in
    /// a search, the source that it has come to is asked.
    pub open spec fn step(&self, patrol: Patrol, call: Call<J>) -> Option<(Patrol, Step<J>)> {
        match patrol.sweep {
            None => match call {
                Call::Loaded(flag, value) => if flag == self.flag() {
                    Some((patrol.begun(value), Step::On))
                } else {
                    None
                },
                _ => None,
            },
            Some(sweep) => match self.answer_in(sweep.at, call) {
                Some(answer) => Some(patrol.advanced(self.peers().len(), answer)),
                None => None,
            },
        }
    }

    /// Where a worker stands after these calls, if each was due and after each the search went
    /// on.
    pub open spec fn gone_on(&self, patrol: Patrol, calls: Seq<Call<J>>) -> Option<Patrol>
        decreases calls.len(),
    {
        if calls.len() == 0 {
            Some(patrol)
        } else {
            match self.gone_on(patrol, calls.drop_last()) {
                Some(before) => match self.step(before, calls.last()) {
                    Some((after, Step::On)) => Some(after),
                    _ => None,
                },
                None => None,
            }
        }
    }

    /// These calls are a turn of a worker that stood at `before`: each was due, the search went
    /// on after each but the last, and the last has led to `after` and to `action`.
    pub open spec fn turned(
        &self,
        before: Patrol,
        calls: Seq<Call<J>>,
        after: Patrol,
        action: Action<J>,
    ) -> bool {
        &&& calls.len() > 0
        &&& self.gone_on(before, calls.drop_last()) matches Some(last) && self.step(
            last,
            calls.last(),
        ) == Some((after, Step::Done(action)))
    }

    /// The call adds one to the counter of completed jobs.
    pub open spec fn counts_one(&self, call: Call<J>) -> bool {
        call matches Call::Added(counter, amount, _) && counter == self.counter() && amount == 1
    }

    /// The call pins the thread to the worker's core.
    pub open spec fn pins(&self, call: Call<J>) -> bool {
        call matches Call::Pinned(core, _) && self.target() == Some(core)
    }

    /// Where a worker stands after this call, which is due in a search, counts a completed job or
    /// pins the worker's thread.
    pub open spec fn lived(&self, patrol: Patrol, call: Call<J>) -> Option<Patrol> {
        if self.counts_one(call) {
            Some(patrol.rested())
        } else if self.pins(call) {
            Some(patrol)
        } else {
            match self.step(patrol, call) {
                Some((after, _)) => Some(after),
                None => None,
            }
        }
    }

    /// Where a worker stands that has made exactly these calls since it joined the pool, if all
    /// of them were due.
    pub open spec fn life(&self, calls: Seq<Call<J>>) -> Option<Patrol>
        decreases calls.len(),
    {
        if calls.len() == 0 {
            Some(Patrol::fresh())
        } else {
            match self.life(calls.drop_last()) {
                Some(before) => self.lived(before, calls.last()),
                None => None,
            }
        }
    }

    /// The call is made on what the station has: to search for a job, to count one, or to pin the
    /// thread.
    pub open spec fn at_hand(&self, call: Call<J>) -> bool {
        match call {
            Call::Popped(queue, _) => queue == self.own(),
            Call::Stole(queue, _) => queue == self.global(),
            Call::Robbed(handle, _) => exists|i: int|
                0 <= i < self.peers().len() && #[trigger] self.peers()[i] == handle,
            Call::Loaded(flag, _) => flag == self.flag(),
            Call::Added(counter, amount, _) => counter == self.counter() && amount == 1,
            Call::Pinned(core, _) => self.target() == Some(core),
            _ => false,
        }
    }

    /// After the call at position `since`, the source was asked and was empty.
    pub open spec fn empty_since(&self, calls: Seq<Call<J>>, since: int, source: Source) -> bool {
        exists|i: int|
            since < i < calls.len() && self.answer_in(source, #[trigger] calls[i]) == Some(
                Steal::<J>::Empty,
            )
    }

    /// The flag was read, it held `closing`, and after that every source before the place `end`
    /// was asked and was empty.
    pub open spec fn swept(&self, calls: Seq<Call<J>>, closing: bool, end: int) -> bool {
        exists|since: int|
            0 <= since < calls.len() && #[trigger] calls[since] == Call::<J>::Loaded(
                self.flag(),
                closing,
            ) && forall|source: Source|
                source.place() < end ==> #[trigger] self.empty_since(calls, since, source)
    }

    #[verifier::type_invariant]
    spec fn well_formed(self) -> bool {
        self.core matches Some(core) ==> listed::<J>(core)
    }

    /// The workers can be numbered by machine integers.
    pub proof fn lemma_peer_count(&self)
        ensures
            self.peers().len() <= usize::MAX,
    {
        assert(self.stealers@.len() == self.stealers.len());
    }

    proof fn lemma_empty_still(
        &self,
        before: Seq<Call<J>>,
        calls: Seq<Call<J>>,
        since: int,
        source: Source,
    )
        requires
            calls.len() > 0,
            before == calls.drop_last(),
            since >= 0,
            self.empty_since(before, since, source),
        ensures
            self.empty_since(calls, since, source),
    {
        let i = choose|i: int|
            since < i < before.len() && self.answer_in(source, #[trigger] before[i]) == Some(
                Steal::<J>::Empty,
            );
        assert(calls[i] == before[i]);
    }

    /// A search that is under way began with a read of the shutdown flag, and since then every
    /// source that it has left behind was asked and was empty.
    pub proof fn law_search_begins_with_the_flag(&self, calls: Seq<Call<J>>)
        requires
            self.life(calls) matches Some(patrol) && patrol.sweep is Some,
        ensures
            self.swept(
                calls,
                self.life(calls)->0.sweep->0.closing,
                self.life(calls)->0.sweep->0.at.place(),
            ),
        decreases calls.len(),
    {
        let last = calls.len() - 1;
        let before = calls.drop_last();
        let patrol = self.life(before)->0;
        let sweep = self.life(calls)->0.sweep->0;
        if patrol.sweep is None {
            assert(calls[last] == Call::<J>::Loaded(self.flag(), sweep.closing));
        } else {
            self.law_search_begins_with_the_flag(before);
            let at = patrol.sweep->0.at;
            let since = choose|since: int|
                0 <= since < before.len() && #[trigger] before[since] == Call::<J>::Loaded(
                    self.flag(),
                    sweep.closing,
                ) && forall|source: Source|
                    source.place() < at.place() ==> #[trigger] self.empty_since(
                        before,
                        since,
                        source,
                    );
            assert(calls[since] == before[since]);
            self.lemma_peer_count();
            assert forall|source: Source| source.place() < sweep.at.place() implies
                #[trigger] self.empty_since(calls, since, source) by {
                if source.place() < at.place() {
                    self.lemma_empty_still(before, calls, since, source);
                } else {
                    assert(source == at);
                    assert(self.answer_in(source, calls[last]) == Some(Steal::<J>::Empty));
                }
            }
        }
    }

    /// A worker that leaves had read the shutdown flag, found it up, and then, after that, asked
    /// every source and found it empty.
    pub proof fn law_leaves_only_after_a_late_search(
        &self,
        calls: Seq<Call<J>>,
        call: Call<J>,
        after: Patrol,
    )
        requires
            self.life(calls) matches Some(patrol) && self.step(patrol, call) == Some(
                (after, Step::Done(Action::<J>::Leave)),
            ),
        ensures
            self.swept(calls.push(call), true, sources(self.peers().len())),
    {
        let patrol = self.life(calls)->0;
        let sweep = patrol.sweep->0;
        let longer = calls.push(call);
        assert(longer.drop_last() =~= calls);
        self.law_search_begins_with_the_flag(calls);
        let since = choose|since: int|
            0 <= since < calls.len() && #[trigger] calls[since] == Call::<J>::Loaded(
                self.flag(),
                true,
            ) && forall|source: Source|
                source.place() < sweep.at.place() ==> #[trigger] self.empty_since(
                    calls,
                    since,
                    source,
                );
        assert(longer[since] == calls[since]);
        self.lemma_peer_count();
        assert forall|source: Source| source.place() < sources(self.peers().len()) implies
            #[trigger] self.empty_since(longer, since, source) by {
            if source.place() < sweep.at.place() {
                self.lemma_empty_still(calls, longer, since, source);
            } else {
                assert(source == sweep.at);
                assert(longer[calls.len() as int] == call);
                assert(self.answer_in(source, longer[calls.len() as int]) == Some(
                    Steal::<J>::Empty,
                ));
            }
        }
    }

    /// A worker keeps to its pool: all its calls are on the queues, the flag and the counter that
    /// it was given, and it never pushes a job, makes a queue or sets the flag.
    pub proof fn law_keeps_to_what_is_at_hand(&self, calls: Seq<Call<J>>, i: int)
        requires
            self.life(calls) is Some,
            0 <= i < calls.len(),
        ensures
            self.at_hand(calls[i]),
        decreases calls.len(),
    {
        let before = calls.drop_last();
        self.lemma_search_exists(before);
        if i < calls.len() - 1 {
            self.law_keeps_to_what_is_at_hand(before, i);
            assert(calls[i] == before[i]);
        } else if let Some(sweep) = self.life(before)->0.sweep {
            if let Source::Peer(peer) = sweep.at {
                if let Call::Robbed(handle, _) = calls[i] {
                    assert(self.peers()[peer as int] == handle);
                }
            }
        }
    }

    /// A search only comes to sources that exist.
    proof fn lemma_search_exists(&self, calls: Seq<Call<J>>)
        requires
            self.life(calls) is Some,
        ensures
            self.life(calls)->0.sweep matches Some(sweep) ==> sweep.at.exists_among(
                self.peers().len(),
            ),
        decreases calls.len(),
    {
        if calls.len() > 0 {
            self.lemma_search_exists(calls.drop_last());
            self.lemma_peer_count();
        }
    }

    /// Sets up the station of the worker with the number `id`.
    pub fn new(
        id: usize,
        local: LocalQueue<J>,
        injector: Arc<Injector<J>>,
        stealers: Vec<Stealer<J>>,
        shutdown: Arc<Flag>,
        task_count: Arc<Counter>,
        core: Option<CoreId>,
    ) -> (station: Station<J>)
        requires
            core matches Some(core) ==> listed::<J>(core),
        ensures
            station.number() == id,
            station.own() == local,
            station.global() == *injector,
            station.peers() == stealers@,
            station.flag() == *shutdown,
            station.counter() == *task_count,
            station.target() == core,
    {
        Station { id, local, injector, stealers, shutdown, task_count, core }
    }

    /// The worker's number.
    pub fn id(&self) -> (id: usize)
        ensures
            id == self.number(),
    {
        self.id
    }

    /// How many workers there are.
    pub fn peer_count(&self) -> (count: usize)
        ensures
            count == self.peers().len(),
    {
        self.stealers.len()
    }
}

/// A station that is occupied: the record of the calls that were made from it has been opened, and
/// neither can be had without the other.
#[verifier::reject_recursive_types(J)]
pub struct Post<J> {
    station: Station<J>,
    journal: Journal<J>,
}

impl<J> Post<J> {
    /// What the worker has at hand.
    pub closed spec fn station(&self) -> Station<J> {
        self.station
    }

    /// The calls that were made from here.
    pub closed spec fn calls(&self) -> Seq<Call<J>> {
        self.journal.calls()
    }

    /// Occupies a station.
    pub fn new(station: Station<J>, journal: Journal<J>) -> (post: Post<J>)
        ensures
            post.station() == station,
            post.calls() == journal.calls(),
    {
        Post { station, journal }
    }

    /// The worker's number.
    pub fn id(&self) -> (id: usize)
        ensures
            id == self.station().number(),
    {
        self.station.id()
    }

    /// How many workers there are.
    pub fn peer_count(&self) -> (count: usize)
        ensures
            count == self.station().peers().len(),
    {
        self.station.peer_count()
    }

    /// Pins the calling thread to the worker's core. The answer is `false` if the operating
    /// system refused, so that the thread runs unpinned although the worker has a core.
    pub fn pin(&mut self) -> (accepted: bool)
        ensures
            final(self).station() == old(self).station(),
            exists|calls: Seq<Call<J>>| #[trigger]
                pinning(old(self).station().target(), calls, accepted) && final(self).calls()
                    == old(self).calls() + calls,
    {
        proof {
            use_type_invariant(&self.station);
        }
        pin(self.station.core, &mut self.journal)
    }

    /// Reads whether the pool is shutting down.
    pub fn is_closing(&mut self) -> (closing: bool)
        ensures
            final(self).station() == old(self).station(),
            final(self).calls() == old(self).calls().push(
                Call::Loaded(old(self).station().flag(), closing),
            ),
    {
        self.journal.load(&self.station.shutdown)
    }

    /// Asks one source for a job, once.
    pub fn ask(&mut self, source: Source) -> (answer: Steal<J>)
        requires
            source.exists_among(old(self).station().peers().len()),
        ensures
            final(self).station() == old(self).station(),
            exists|call: Call<J>| #[trigger]
                old(self).station().answer_in(source, call) == Some(answer) && final(self).calls()
                    == old(self).calls().push(call),
    {
        let ghost station = self.station;
        match source {
            Source::Own => {
                let job = self.journal.pop(&self.station.local);
                let ghost call = Call::Popped(station.own(), job);
                match job {
                    Some(job) => {
                        assert(station.answer_in(source, call) == Some(Steal::Success(job)));
                        Steal::Success(job)
                    },
                    None => {
                        assert(station.answer_in(source, call) == Some(Steal::<J>::Empty));
                        Steal::Empty
                    },
                }
            },
            Source::Global => {
                let answer = self.journal.steal(&self.station.injector);
                assert(station.answer_in(source, Call::Stole(station.global(), answer)) == Some(
                    answer,
                ));
                answer
            },
            Source::Peer(i) => {
                let answer = self.journal.rob(&self.station.stealers[i]);
                assert(station.answer_in(source, Call::Robbed(station.peers()[i as int], answer))
                    == Some(answer));
                answer
            },
        }
    }

    /// Counts one more completed job.
    pub fn count(&mut self)
        ensures
            final(self).station() == old(self).station(),
            exists|call: Call<J>| #[trigger]
                old(self).station().counts_one(call) && final(self).calls() == old(
                    self,
                ).calls().push(call),
    {
        let before = self.journal.fetch_add(&self.station.task_count, 1);
        assert(self.station.counts_one(Call::Added(self.station.counter(), 1, before)));
    }
}

} // verus!
