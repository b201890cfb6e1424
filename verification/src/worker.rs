//! The turns that a worker's thread takes.

use vstd::prelude::*;

use crate::affinity::pinning;
use crate::entry::journal::Call;
use crate::patrol::{Action, Patrol, Step};
use crate::search::sources;
use crate::station::{Post, Station};

verus! {

/// A worker of the pool. Its thread takes turns until it is told to leave.
#[verifier::reject_recursive_types(J)]
pub struct Worker<J> {
    post: Post<J>,
    patrol: Patrol,
}

/// A bound on how many calls a turn makes from here.
spec fn calls_left(patrol: Patrol, peers: nat) -> int {
    match patrol.sweep {
        None => sources(peers) + 1,
        Some(sweep) => sources(peers) - sweep.at.place(),
    }
}

impl<J> Worker<J> {
    /// What the worker has at hand.
    pub closed spec fn station(&self) -> Station<J> {
        self.post.station()
    }

    /// How far the worker has come in its search for a job.
    pub closed spec fn patrol(&self) -> Patrol {
        self.patrol
    }

    /// The calls that the worker has made on shared things since it joined the pool.
    pub closed spec fn calls(&self) -> Seq<Call<J>> {
        self.post.calls()
    }

    /// The worker has made exactly the calls that were due, and stands where they lead.
    pub open spec fn dutiful(&self) -> bool {
        &&& self.station().life(self.calls()) == Some(self.patrol())
        &&& self.patrol().sweep matches Some(sweep) ==> sweep.at.exists_among(
            self.station().peers().len(),
        )
    }

    /// Makes the worker of a post from which no call was made yet.
    pub fn new(post: Post<J>) -> (worker: Worker<J>)
        requires
            post.calls() == Seq::<Call<J>>::empty(),
        ensures
            worker.station() == post.station(),
            worker.patrol() == Patrol::fresh(),
            worker.calls() == Seq::<Call<J>>::empty(),
            worker.dutiful(),
    {
        Worker { post, patrol: Patrol { sweep: None, spins: 0 } }
    }

    /// The worker's number.
    pub fn id(&self) -> (id: usize)
        ensures
            id == self.station().number(),
    {
        self.post.id()
    }

    /// Pins the calling thread to the worker's core. The answer is `false` if the operating
    /// system refused, so that the thread runs unpinned although the worker has a core.
    pub fn pin(&mut self) -> (accepted: bool)
        requires
            old(self).dutiful(),
        ensures
            final(self).dutiful(),
            final(self).station() == old(self).station(),
            final(self).patrol() == old(self).patrol(),
            exists|calls: Seq<Call<J>>| #[trigger]
                pinning(old(self).station().target(), calls, accepted) && final(self).calls()
                    == old(self).calls() + calls,
    {
        let ghost before = *self;
        let accepted = self.post.pin();
        proof {
            let calls = choose|calls: Seq<Call<J>>| #[trigger]
                pinning(before.station().target(), calls, accepted) && self.calls()
                    == before.calls() + calls;
            if let Some(core) = before.station().target() {
                let call = Call::<J>::Pinned(core, accepted);
                assert(self.calls() =~= before.calls().push(call));
                assert(self.calls().drop_last() =~= before.calls());
                assert(before.station().lived(before.patrol(), call) == Some(before.patrol()));
            } else {
                assert(self.calls() =~= before.calls());
            }
        }
        accepted
    }

    /// Makes the one call that is due in the search for a job.
    fn step(&mut self) -> (step: Step<J>)
        requires
            old(self).dutiful(),
        ensures
            final(self).dutiful(),
            final(self).station() == old(self).station(),
            exists|call: Call<J>| #[trigger]
                old(self).station().step(old(self).patrol(), call) == Some(
                    (final(self).patrol(), step),
                ) && final(self).calls() == old(self).calls().push(call),
            step is On ==> calls_left(final(self).patrol(), old(self).station().peers().len())
                < calls_left(old(self).patrol(), old(self).station().peers().len()),
    {
        proof {
            self.station().lemma_peer_count();
        }
        let ghost before = *self;
        match self.patrol.sweep {
            None => {
                let closing = self.post.is_closing();
                self.patrol = self.patrol.begin(closing);
                proof {
                    let call = Call::<J>::Loaded(before.station().flag(), closing);
                    assert(self.calls().drop_last() =~= before.calls());
                    assert(before.station().step(before.patrol(), call) == Some(
                        (self.patrol(), Step::<J>::On),
                    ));
                    assert(before.station().lived(before.patrol(), call) == Some(self.patrol()));
                }
                Step::On
            },
            Some(sweep) => {
                let answer = self.post.ask(sweep.at);
                let (patrol, step) = self.patrol.advance(self.post.peer_count(), answer);
                self.patrol = patrol;
                proof {
                    let call = choose|call: Call<J>| #[trigger]
                        before.station().answer_in(sweep.at, call) == Some(answer)
                            && self.calls() == before.calls().push(call);
                    assert(self.calls().drop_last() =~= before.calls());
                    assert(before.station().step(before.patrol(), call) == Some(
                        (self.patrol(), step),
                    ));
                    assert(before.station().lived(before.patrol(), call) == Some(self.patrol()));
                }
                step
            },
        }
    }

    /// Takes one turn: goes on with the search for a job, or begins a new one, and says what the
    /// thread has to do next.
    ///
    /// A search begins by reading the shutdown flag; then the worker's own queue, the global
    /// queue and the queues of the workers by number are asked, each once, until one hands out a
    /// job or has to be asked again. So a worker that leaves has found every queue empty after it
    /// had found the flag up.
    pub fn turn(&mut self) -> (action: Action<J>)
        requires
            old(self).dutiful(),
        ensures
            final(self).dutiful(),
            final(self).station() == old(self).station(),
            exists|calls: Seq<Call<J>>| #[trigger]
                old(self).station().turned(
                    old(self).patrol(),
                    calls,
                    final(self).patrol(),
                    action,
                ) && final(self).calls() == old(self).calls() + calls,
            action is Leave ==> old(self).station().swept(
                final(self).calls(),
                true,
                sources(old(self).station().peers().len()),
            ),
    {
        let ghost before = *self;
        let ghost mut calls = Seq::<Call<J>>::empty();
        assert(before.calls() + calls =~= before.calls());
        loop
            invariant
                before == *old(self),
                self.dutiful(),
                self.station() == before.station(),
                self.calls() == before.calls() + calls,
                before.station().gone_on(before.patrol(), calls) == Some(self.patrol()),
            decreases calls_left(self.patrol(), before.station().peers().len()),
        {
            let ghost here = *self;
            let step = self.step();
            proof {
                let call = choose|call: Call<J>| #[trigger]
                    here.station().step(here.patrol(), call) == Some((self.patrol(), step))
                        && self.calls() == here.calls().push(call);
                let longer = calls.push(call);
                assert(longer.drop_last() =~= calls);
                assert(before.calls() + longer =~= (before.calls() + calls).push(call));
                if step is Done {
                    let action = step->Done_0;
                    assert(before.station().turned(
                        before.patrol(),
                        longer,
                        self.patrol(),
                        action,
                    ));
                    if action is Leave {
                        before.station().law_leaves_only_after_a_late_search(
                            here.calls(),
                            call,
                            self.patrol(),
                        );
                    }
                }
                calls = longer;
            }
            match step {
                Step::On => {},
                Step::Done(action) => return action,
            }
        }
    }

    /// Records that the job of the last turn has been run to its end.
    pub fn finished(&mut self)
        requires
            old(self).dutiful(),
        ensures
            final(self).dutiful(),
            final(self).station() == old(self).station(),
            final(self).patrol() == old(self).patrol().rested(),
            exists|call: Call<J>| #[trigger]
                old(self).station().counts_one(call) && final(self).calls() == old(
                    self,
                ).calls().push(call),
    {
        let ghost before = *self;
        self.post.count();
        self.patrol = self.patrol.rest();
        proof {
            assert(self.calls().drop_last() =~= before.calls());
        }
    }
}

} // verus!
