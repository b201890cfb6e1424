//! Where a worker stands between two jobs: how far its search has come and how often it has
//! spun.

use vstd::prelude::*;

use crossbeam_deque::Steal;

use crate::backoff::{idle, idle_choice, Idle};
use crate::search::Source;

verus! {

/// A search that is under way.
#[derive(Clone, Copy, Debug, PartialEq, Eq, Structural)]
pub struct Sweep {
    /// The pool was shutting down before the first source was asked.
    pub closing: bool,
    /// The source to ask next; all sources before it were found empty.
    pub at: Source,
}

/// The progress of a worker that has no job.
#[derive(Clone, Copy, Debug, PartialEq, Eq, Structural)]
pub struct Patrol {
    /// The search that is under way, if any.
    pub sweep: Option<Sweep>,
    /// How many idle turns in a row the worker has spun.
    pub spins: usize,
}

/// What a worker's thread has to do.
#[derive(Debug)]
pub enum Action<J> {
    /// Run this job and report it as finished.
    Run(J),
    /// Take the next turn at once: another thread got in the way of the search.
    Again,
    /// Hint to the processor that the thread is spinning, then take the next turn.
    Spin,
    /// Sleep until woken, then take the next turn.
    Park,
    /// Take no further turn: the thread ends.
    Leave,
}

/// What follows from a single call of a search.
#[derive(Debug)]
pub enum Step<J> {
    /// The search goes on.
    On,
    /// The turn is over, and this is what the thread has to do.
    Done(Action<J>),
}

/// What the thread of an idle worker has to do.
pub open spec fn idle_action<J>(choice: Idle) -> Action<J> {
    match choice {
        Idle::Leave => Action::Leave,
        Idle::Spin => Action::Spin,
        Idle::Park => Action::Park,
    }
}

impl Patrol {
    /// The progress of a worker that has just joined the pool.
    pub open spec fn fresh() -> Patrol {
        Patrol { sweep: None, spins: 0 }
    }

    /// A search has begun: the shutdown flag was read and held `flag`, and the own queue is next.
    pub open spec fn begun(self, flag: bool) -> Patrol {
        Patrol { sweep: Some(Sweep { closing: flag, at: Source::Own }), ..self }
    }

    /// The search under way has come to this source.
    pub open spec fn moved(self, at: Source) -> Patrol {
        Patrol { sweep: Some(Sweep { closing: self.sweep->0.closing, at }), ..self }
    }

    /// A job has been run to its end.
    pub open spec fn rested(self) -> Patrol {
        Patrol { spins: 0, ..self }
    }

    /// Where the worker stands, and what follows, after the source that the search has come to
    /// has given this answer.
    pub open spec fn advanced<J>(self, peers: nat, answer: Steal<J>) -> (Patrol, Step<J>) {
        let sweep = self.sweep->0;
        match answer {
            Steal::Success(job) => (
                Patrol { sweep: None, ..self },
                Step::Done(Action::Run(job)),
            ),
            Steal::Retry => (self, Step::Done(Action::Again)),
            Steal::Empty => match sweep.at.successor(peers) {
                Some(next) => (self.moved(next), Step::On),
                None => {
                    let (choice, spins) = idle_choice(sweep.closing, self.spins);
                    (Patrol { sweep: None, spins }, Step::Done(idle_action(choice)))
                },
            },
        }
    }

    /// Begins a search, with what the shutdown flag was read to hold.
    pub fn begin(self, flag: bool) -> (patrol: Patrol)
        ensures
            patrol == self.begun(flag),
    {
        Patrol { sweep: Some(Sweep { closing: flag, at: Source::Own }), spins: self.spins }
    }

    /// Goes on with a search in a pool of `peers` workers, with what the source that it has come
    /// to has answered.
    pub fn advance<J>(self, peers: usize, answer: Steal<J>) -> (next: (Patrol, Step<J>))
        requires
            self.sweep is Some,
        ensures
            next == self.advanced(peers as nat, answer),
    {
        let sweep = self.sweep.unwrap();
        match answer {
            Steal::Success(job) => (
                Patrol { sweep: None, spins: self.spins },
                Step::Done(Action::Run(job)),
            ),
            Steal::Retry => (self, Step::Done(Action::Again)),
            Steal::Empty => match sweep.at.next(peers) {
                Some(at) => (
                    Patrol {
                        sweep: Some(Sweep { closing: sweep.closing, at }),
                        spins: self.spins,
                    },
                    Step::On,
                ),
                None => {
                    let (choice, spins) = idle(sweep.closing, self.spins);
                    let action = match choice {
                        Idle::Leave => Action::Leave,
                        Idle::Spin => Action::Spin,
                        Idle::Park => Action::Park,
                    };
                    (Patrol { sweep: None, spins }, Step::Done(action))
                },
            },
        }
    }

    /// Notes that a job has been run to its end.
    pub fn rest(self) -> (patrol: Patrol)
        ensures
            patrol == self.rested(),
    {
        Patrol { sweep: self.sweep, spins: 0 }
    }
}

/// A search begins with the own queue, remembers what the flag was, and leaves the spin count
/// alone.
pub proof fn law_search_begins_at_the_own_queue(before: Patrol, flag: bool, after: Patrol)
    requires
        call_ensures(Patrol::begin, (before, flag), after),
    ensures
        after.sweep matches Some(sweep) && sweep.closing == flag && sweep.at == Source::Own,
        after.spins == before.spins,
{
}

/// The end of a job sets the spin count to zero and leaves the search alone.
pub proof fn law_a_job_ends_the_spinning(before: Patrol, after: Patrol)
    requires
        call_ensures(Patrol::rest, (before,), after),
    ensures
        after.spins == 0,
        after.sweep == before.sweep,
{
}

/// What an answer leads to: a job is run; a lost race is tried again from the same place; and after
/// an empty queue the search goes on with the next, or ends, in a pool of any size, with what an
/// idle worker does.
pub proof fn law_answers_lead_on<J>(
    before: Patrol,
    peers: usize,
    answer: Steal<J>,
    next: (Patrol, Step<J>),
)
    requires
        before.sweep is Some,
        call_ensures(Patrol::advance::<J>, (before, peers, answer), next),
    ensures
        match answer {
            Steal::Success(job) => {
                &&& next.1 == Step::Done(Action::Run(job))
                &&& next.0.sweep is None
                &&& next.0.spins == before.spins
            },
            Steal::Retry => next.1 == Step::Done(Action::<J>::Again) && next.0 == before,
            Steal::Empty => {
                let here = match before.sweep->0.at {
                    Source::Own => 0,
                    Source::Global => 1,
                    Source::Peer(i) => 2 + i,
                };
                if here + 1 < 2 + peers {
                    &&& next.1 is On
                    &&& next.0.spins == before.spins
                    &&& next.0.sweep matches Some(sweep) && sweep.closing
                        == before.sweep->0.closing && here + 1 == match sweep.at {
                        Source::Own => 0,
                        Source::Global => 1,
                        Source::Peer(i) => 2 + i,
                    }
                } else {
                    &&& next.0.sweep is None
                    &&& if before.sweep->0.closing {
                        next.1 == Step::Done(Action::<J>::Leave)
                    } else if before.spins < 200 {
                        next.1 == Step::Done(Action::<J>::Spin) && next.0.spins == before.spins + 1
                    } else {
                        next.1 == Step::Done(Action::<J>::Park) && next.0.spins == 0
                    }
                }
            },
        },
{
}

} // verus!
