//! Where a worker looks for a job, and in which order.

use vstd::prelude::*;

verus! {

/// A queue that a worker may take a job from.
#[derive(Clone, Copy, Debug, PartialEq, Eq, Structural)]
pub enum Source {
    /// The worker's own queue.
    Own,
    /// The queue that all jobs are submitted to.
    Global,
    /// The queue of the worker with this number.
    Peer(usize),
}

impl Source {
    /// The position of the source in a sweep: the own queue, the global queue, then the queues
    /// of the workers by number.
    pub open spec fn place(self) -> int {
        match self {
            Source::Own => 0,
            Source::Global => 1,
            Source::Peer(i) => 2 + i,
        }
    }

    /// The source exists in a pool of `peers` workers.
    pub open spec fn exists_among(self, peers: nat) -> bool {
        self.place() < sources(peers)
    }

    /// The source that a sweep turns to after this one, if it was not the last.
    pub open spec fn successor(self, peers: nat) -> Option<Source> {
        match self {
            Source::Own => Some(Source::Global),
            Source::Global => if peers > 0 {
                Some(Source::Peer(0))
            } else {
                None
            },
            Source::Peer(i) => if i + 1 < peers {
                Some(Source::Peer((i + 1) as usize))
            } else {
                None
            },
        }
    }

    /// Gives the source that a sweep turns to after this one, or `None` after the last.
    pub fn next(self, peers: usize) -> (next: Option<Source>)
        ensures
            next == self.successor(peers as nat),
    {
        match self {
            Source::Own => Some(Source::Global),
            Source::Global => if peers > 0 {
                Some(Source::Peer(0))
            } else {
                None
            },
            Source::Peer(i) => if i < peers && i + 1 < peers {
                Some(Source::Peer(i + 1))
            } else {
                None
            },
        }
    }
}

/// How many sources there are in a pool of `peers` workers.
pub open spec fn sources(peers: nat) -> int {
    2 + peers as int
}

/// A sweep asks every source once: each but the last is followed by the one at the next place.
pub proof fn law_sweep_visits_every_source(source: Source, peers: nat)
    requires
        peers <= usize::MAX,
        source.exists_among(peers),
    ensures
        match source.successor(peers) {
            Some(next) => next.place() == source.place() + 1 && next.exists_among(peers),
            None => source.place() == sources(peers) - 1,
        },
{
}

/// The own queue is followed by the global queue, this by the queue of worker 0, and every queue of
/// a worker by that of the next, up to the last.
pub proof fn law_queues_are_searched_in_order(source: Source, peers: usize, next: Option<Source>)
    requires
        call_ensures(Source::next, (source, peers), next),
    ensures
        match source {
            Source::Own => next == Some(Source::Global),
            Source::Global => if peers == 0 {
                next is None
            } else {
                next == Some(Source::Peer(0))
            },
            Source::Peer(i) => if i + 1 < peers {
                next matches Some(Source::Peer(j)) && j == i + 1
            } else {
                next is None
            },
        },
{
}

} // verus!
