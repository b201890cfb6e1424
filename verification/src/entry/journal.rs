//! The calls that a thread makes on what it shares with other threads, and on the thread itself,
//! and the record of them.
//!
//! Queues, flags and counters are shared: while one thread makes a call, other threads push,
//! steal and count, so what a call answers is not a function of the handle it is made on, and no
//! contract can say what a queue holds. What a contract can say is which calls were made, with
//! which arguments and answers, in which order, and that there were no others. A [`Journal`]
//! makes this statable: every call on a shared thing goes through one of its methods, which
//! appends the call to the record, and nothing else changes the record.
//!
//! A journal cannot be copied, and only the parent module can open one; it keeps those that it
//! opens to itself or binds each to one station. So a function of [`pool`](crate::pool) or
//! [`station`](crate::station) has no other way to the shared things it is given than the journal
//! that it is given with them, and the calls that it makes on them are those that this journal
//! gains. What the record does not hold is what other journals hold: a function could still build
//! a pool of its own, whose calls are on other things, and the entry points in the parent module
//! could open a second journal. That they do not is seen by reading them.

use vstd::prelude::*;

use std::sync::atomic::{AtomicBool, AtomicUsize, Ordering};

use core_affinity::CoreId;
use crossbeam_deque::{Injector, Steal, Stealer, Worker as LocalQueue};

verus! {

/// A flag that threads share.
pub struct Flag {
    cell: AtomicBool,
}

impl Flag {
    /// The flag was made to hold this value at first.
    pub closed spec fn begins_at(&self, value: bool) -> bool {
        call_ensures(AtomicBool::new, (value,), self.cell)
    }

    /// Makes a flag that is down.
    pub fn new() -> (flag: Flag)
        ensures
            flag.begins_at(false),
    {
        Flag { cell: AtomicBool::new(false) }
    }
}

/// A counter that threads share.
///
/// It begins at the start of a cache line and takes up all of it, so that two counters never share
/// one: `line` has no elements, but has the counter aligned as `crossbeam_deque` aligns the ends
/// of its queues, which is to 64 bytes or more on machines with such lines.
pub struct Counter {
    cell: AtomicUsize,
    padding: [u64; 7],
    line: [Injector<()>; 0],
}

impl Counter {
    /// The counter was made to begin with this number.
    pub closed spec fn begins_at(&self, number: usize) -> bool {
        call_ensures(AtomicUsize::new, (number,), self.cell)
    }

    /// Makes a counter that begins at zero.
    pub fn new() -> (counter: Counter)
        ensures
            counter.begins_at(0),
    {
        Counter { cell: AtomicUsize::new(0), padding: [0, 0, 0, 0, 0, 0, 0], line: [] }
    }
}

/// A call that is put on record, with its arguments and its answer.
#[verifier::reject_recursive_types(J)]
pub enum Call<J> {
    /// A queue for submissions was made.
    MadeQueue(Injector<J>),
    /// A queue for one worker was made.
    MadeLocal(LocalQueue<J>),
    /// A flag was made that holds this value.
    MadeFlag(Flag, bool),
    /// A counter was made that stands at this number.
    MadeCounter(Counter, usize),
    /// A job was pushed onto a queue for submissions.
    Pushed(Injector<J>, J),
    /// A queue for submissions was asked for a job.
    Stole(Injector<J>, Steal<J>),
    /// A worker's queue was asked for a job by its owner.
    Popped(LocalQueue<J>, Option<J>),
    /// A worker's queue was asked for a job through a handle.
    Robbed(Stealer<J>, Steal<J>),
    /// A flag was set to this value.
    Stored(Flag, bool),
    /// A flag was read and held this value.
    Loaded(Flag, bool),
    /// This amount was added to a counter, which stood at the last number before.
    Added(Counter, usize, usize),
    /// A counter was read and stood at this number.
    Counted(Counter, usize),
    /// The machine was asked for its cores.
    ListedCores(Option<Vec<CoreId>>),
    /// The calling thread was pinned to a core, unless the answer is `false`.
    Pinned(CoreId, bool),
}

/// `core_affinity::get_core_ids` has answered with a list that holds this core.
pub closed spec fn listed<J>(core: CoreId) -> bool {
    exists|journal: &mut Journal<J>, ids: Vec<CoreId>| #[trigger]
        call_ensures(Journal::<J>::get_core_ids, (journal,), Some(ids)) && ids@.contains(core)
}

/// The two calls make the same thing.
pub open spec fn makes_same<J>(one: Call<J>, other: Call<J>) -> bool {
    match (one, other) {
        (Call::MadeQueue(queue), Call::MadeQueue(made)) => queue == made,
        (Call::MadeLocal(queue), Call::MadeLocal(made)) => queue == made,
        (Call::MadeFlag(flag, _), Call::MadeFlag(made, _)) => flag == made,
        (Call::MadeCounter(counter, _), Call::MadeCounter(made, _)) => counter == made,
        _ => false,
    }
}

/// The call makes nothing that one of these calls has made.
pub open spec fn novel<J>(calls: Seq<Call<J>>, call: Call<J>) -> bool {
    forall|i: int| 0 <= i < calls.len() ==> !#[trigger] makes_same(calls[i], call)
}

/// The record of the calls that were made through it.
#[verifier::reject_recursive_types(J)]
pub struct Journal<J> {
    calls: Ghost<Seq<Call<J>>>,
}

impl<J> Journal<J> {
    /// The calls that were made, in their order.
    pub closed spec fn calls(&self) -> Seq<Call<J>> {
        self.calls@
    }

    /// Opens an empty journal.
    pub(super) fn new() -> (journal: Journal<J>)
        ensures
            journal.calls() == Seq::<Call<J>>::empty(),
    {
        Journal { calls: Ghost(Seq::empty()) }
    }

    /// `Injector::new` makes a queue, which is none of those that were made before. That it is
    /// empty is not stated, since a shared queue has no contents to speak of.
    #[verifier::external_body]
    pub(crate) fn make_queue(&mut self) -> (queue: Injector<J>)
        ensures
            final(self).calls() == old(self).calls().push(Call::MadeQueue(queue)),
            novel(old(self).calls(), Call::MadeQueue(queue)),
    {
        Injector::new()
    }

    /// `Worker::new_lifo` makes a queue for one owner, which is none of those that were made
    /// before. That it is empty is not stated, as for [`Journal::make_queue`].
    #[verifier::external_body]
    pub(crate) fn make_local(&mut self) -> (queue: LocalQueue<J>)
        ensures
            final(self).calls() == old(self).calls().push(Call::MadeLocal(queue)),
            novel(old(self).calls(), Call::MadeLocal(queue)),
    {
        LocalQueue::new_lifo()
    }

    /// `AtomicBool::new` makes a flag that holds `value`, and which is none of those that were
    /// made before.
    #[verifier::external_body]
    pub(crate) fn make_flag(&mut self, value: bool) -> (flag: Flag)
        ensures
            final(self).calls() == old(self).calls().push(Call::MadeFlag(flag, value)),
            novel(old(self).calls(), Call::MadeFlag(flag, value)),
    {
        Flag { cell: AtomicBool::new(value) }
    }

    /// `AtomicUsize::new` makes a counter that stands at `number`, and which is none of those that
    /// were made before.
    #[verifier::external_body]
    pub(crate) fn make_counter(&mut self, number: usize) -> (counter: Counter)
        ensures
            final(self).calls() == old(self).calls().push(Call::MadeCounter(counter, number)),
            novel(old(self).calls(), Call::MadeCounter(counter, number)),
    {
        Counter { cell: AtomicUsize::new(number), padding: [0; 7], line: [] }
    }

    /// `Injector::push` appends a job to the queue. Nothing is stated of the queue afterwards:
    /// another thread may have taken the job before the call returns.
    #[verifier::external_body]
    pub(crate) fn push(&mut self, queue: &Injector<J>, job: J)
        ensures
            final(self).calls() == old(self).calls().push(Call::Pushed(*queue, job)),
    {
        queue.push(job)
    }

    /// `Injector::steal` takes the oldest job, or answers `Empty`, or answers `Retry` after
    /// losing a race. Which of the three, and which job is the oldest, depends on the other
    /// threads and is left open.
    #[verifier::external_body]
    pub(crate) fn steal(&mut self, queue: &Injector<J>) -> (answer: Steal<J>)
        ensures
            final(self).calls() == old(self).calls().push(Call::Stole(*queue, answer)),
    {
        queue.steal()
    }

    /// `Worker::pop` takes the newest job of the owner's queue. Whether one is there depends on
    /// the threads that hold handles on the queue, so the answer is left open.
    #[verifier::external_body]
    pub(crate) fn pop(&mut self, queue: &LocalQueue<J>) -> (answer: Option<J>)
        ensures
            final(self).calls() == old(self).calls().push(Call::Popped(*queue, answer)),
    {
        queue.pop()
    }

    /// `Stealer::steal` takes the oldest job of the queue behind the handle, or answers `Empty`
    /// or `Retry`. The answer is left open, as for [`Journal::steal`].
    #[verifier::external_body]
    pub(crate) fn rob(&mut self, handle: &Stealer<J>) -> (answer: Steal<J>)
        ensures
            final(self).calls() == old(self).calls().push(Call::Robbed(*handle, answer)),
    {
        handle.steal()
    }

    /// `AtomicBool::store`, with the ordering `Release`: whoever loads the flag and finds this
    /// value also finds what this thread did before.
    #[verifier::external_body]
    pub(crate) fn store(&mut self, flag: &Flag, value: bool)
        ensures
            final(self).calls() == old(self).calls().push(Call::Stored(*flag, value)),
    {
        flag.cell.store(value, Ordering::Release)
    }

    /// `AtomicBool::load`, with the ordering `Acquire`. What the flag holds depends on the other
    /// threads and is left open.
    #[verifier::external_body]
    pub(crate) fn load(&mut self, flag: &Flag) -> (value: bool)
        ensures
            final(self).calls() == old(self).calls().push(Call::Loaded(*flag, value)),
    {
        flag.cell.load(Ordering::Acquire)
    }

    /// `AtomicUsize::fetch_add`, with the ordering `Relaxed`. The number before the addition
    /// depends on the other threads and is left open.
    #[verifier::external_body]
    pub(crate) fn fetch_add(&mut self, counter: &Counter, amount: usize) -> (before: usize)
        ensures
            final(self).calls() == old(self).calls().push(Call::Added(*counter, amount, before)),
    {
        counter.cell.fetch_add(amount, Ordering::Relaxed)
    }

    /// `AtomicUsize::load`, with the ordering `Relaxed`. The number depends on the other threads
    /// and is left open.
    #[verifier::external_body]
    pub(crate) fn count(&mut self, counter: &Counter) -> (number: usize)
        ensures
            final(self).calls() == old(self).calls().push(Call::Counted(*counter, number)),
    {
        counter.cell.load(Ordering::Relaxed)
    }

    /// `core_affinity::get_core_ids` lists the cores that the calling thread may run on, or answers
    /// `None`. The list belongs to the machine and is left open.
    #[verifier::external_body]
    fn get_core_ids(&mut self) -> (answer: Option<Vec<CoreId>>)
        ensures
            final(self).calls() == old(self).calls().push(Call::ListedCores(answer)),
    {
        core_affinity::get_core_ids()
    }

    /// Asks the machine for its cores, once.
    pub(crate) fn list_cores(&mut self) -> (answer: Option<Vec<CoreId>>)
        ensures
            final(self).calls() == old(self).calls().push(Call::ListedCores(answer)),
            answer matches Some(ids) ==> forall|i: int|
                0 <= i < ids@.len() ==> listed::<J>(#[trigger] ids@[i]),
    {
        let answer = self.get_core_ids();
        proof {
            if answer is Some {
                let ids = answer->0;
                assert forall|i: int| 0 <= i < ids@.len() implies listed::<J>(
                    #[trigger] ids@[i],
                ) by {
                    assert(ids@.contains(ids@[i]));
                }
            }
        }
        answer
    }

    /// `core_affinity::set_for_current` pins the calling thread to a core and says whether the
    /// operating system agreed, which is left open. It indexes a fixed-size set with the core's
    /// number, so only a core that `core_affinity::get_core_ids` has listed may be handed to it.
    #[verifier::external_body]
    pub(crate) fn pin(&mut self, core: CoreId) -> (accepted: bool)
        requires
            listed::<J>(core),
        ensures
            final(self).calls() == old(self).calls().push(Call::Pinned(core, accepted)),
    {
        core_affinity::set_for_current(core)
    }
}

/// What is made without a record begins down, or at zero.
pub proof fn law_new_flags_and_counters_are_blank(flag: Flag, counter: Counter)
    requires
        call_ensures(Flag::new, (), flag),
        call_ensures(Counter::new, (), counter),
    ensures
        flag.begins_at(false),
        counter.begins_at(0),
{
}

} // verus!
