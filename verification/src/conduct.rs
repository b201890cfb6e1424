//! How a worker conducts itself, turn by turn, told by its calls and by what its thread is told to
//! do.
//!
//! A search goes through positions: at position 0 the shutdown flag is read, at 1 the worker's own
//! queue is asked, at 2 the global queue, and from 3 on the queues of the workers by number.

use vstd::prelude::*;

use crossbeam_deque::Steal;

use crate::effects::{lemma_same_tail, World};
use crate::entry::employ;
use crate::entry::journal::Call;
use crate::patrol::{Action, Patrol, Step};
use crate::search::Source;
use crate::station::Station;
use crate::worker::Worker;

verus! {

/// What a call of a search has brought.
#[verifier::reject_recursive_types(J)]
pub enum Reply<J> {
    /// The flag was read.
    Told(bool),
    /// A job.
    Got(J),
    /// The queue was empty.
    Nothing,
    /// Another thread got in the way.
    Disturbed,
}

/// What a handle or a queue has answered.
pub open spec fn reply_of<J>(answer: Steal<J>) -> Reply<J> {
    match answer {
        Steal::Success(job) => Reply::Got(job),
        Steal::Empty => Reply::Nothing,
        Steal::Retry => Reply::Disturbed,
    }
}

/// What the call has brought, if it is the one of this position, made from this station.
pub open spec fn reply<J>(station: Station<J>, position: int, call: Call<J>) -> Option<Reply<J>> {
    match call {
        Call::Loaded(flag, value) if position == 0 && flag == station.flag() => Some(
            Reply::Told(value),
        ),
        Call::Popped(queue, Some(job)) if position == 1 && queue == station.own() => Some(
            Reply::Got(job),
        ),
        Call::Popped(queue, None) if position == 1 && queue == station.own() => Some(
            Reply::Nothing,
        ),
        Call::Stole(queue, answer) if position == 2 && queue == station.global() => Some(
            reply_of(answer),
        ),
        Call::Robbed(handle, answer) if 3 <= position < 3 + station.peers().len() && handle
            == station.peers()[position - 3] => Some(reply_of(answer)),
        _ => None,
    }
}

/// The position of the next call.
pub open spec fn position(patrol: Patrol) -> int {
    match patrol.sweep {
        None => 0,
        Some(sweep) => match sweep.at {
            Source::Own => 1,
            Source::Global => 2,
            Source::Peer(i) => 3 + i,
        },
    }
}

/// The search goes on after this.
pub open spec fn goes_on<J>(reply: Option<Reply<J>>) -> bool {
    reply matches Some(brought) && (brought is Told || brought is Nothing)
}

/// The flag was found up at the beginning of the search to which these calls belong, which are made
/// by a worker that stood at `before`.
pub open spec fn found_up<J>(before: Patrol, calls: Seq<Call<J>>) -> bool {
    match before.sweep {
        None => calls[0] matches Call::Loaded(_, value) && value,
        Some(sweep) => sweep.closing,
    }
}

proof fn lemma_step<J>(
    station: Station<J>,
    patrol: Patrol,
    call: Call<J>,
    after: Patrol,
    step: Step<J>,
)
    requires
        station.step(patrol, call) == Some((after, step)),
        position(patrol) < 3 + station.peers().len(),
        station.peers().len() <= usize::MAX,
    ensures
        match reply(station, position(patrol), call) {
            Some(Reply::Told(value)) => {
                &&& position(patrol) == 0
                &&& step is On
                &&& position(after) == 1
                &&& after.sweep->0.closing == value
                &&& after.spins == patrol.spins
            },
            Some(Reply::Got(job)) => {
                &&& step == Step::Done(Action::Run(job))
                &&& position(after) == 0
                &&& after.spins == patrol.spins
            },
            Some(Reply::Disturbed) => {
                &&& step == Step::Done(Action::<J>::Again)
                &&& after == patrol
                &&& position(patrol) >= 2
            },
            Some(Reply::Nothing) => {
                &&& position(patrol) >= 1
                &&& if position(patrol) + 1 < 3 + station.peers().len() {
                    &&& step is On
                    &&& position(after) == position(patrol) + 1
                    &&& after.sweep->0.closing == patrol.sweep->0.closing
                    &&& after.spins == patrol.spins
                } else {
                    &&& position(after) == 0
                    &&& idles(patrol.sweep->0.closing, patrol.spins, step, after.spins)
                }
            },
            None => false,
        },
{
}

/// What an idle worker is told, and the spin count that it goes on with: it leaves if the flag was
/// up, spins if it has spun less than 200 times in a row, and else sleeps and begins anew.
pub open spec fn idles<J>(closing: bool, spins: usize, step: Step<J>, after: usize) -> bool {
    if closing {
        step == Step::Done(Action::<J>::Leave) && after == spins
    } else if spins < 200 {
        step == Step::Done(Action::<J>::Spin) && after == spins + 1
    } else {
        step == Step::Done(Action::<J>::Park) && after == 0
    }
}

proof fn lemma_gone_on<J>(
    station: Station<J>,
    before: Patrol,
    calls: Seq<Call<J>>,
    after: Patrol,
)
    requires
        station.gone_on(before, calls) == Some(after),
        position(before) < 3 + station.peers().len(),
        station.peers().len() <= usize::MAX,
    ensures
        position(after) == position(before) + calls.len(),
        position(after) < 3 + station.peers().len(),
        after.spins == before.spins,
        forall|i: int|
            0 <= i < calls.len() ==> goes_on(
                reply(station, position(before) + i, #[trigger] calls[i]),
            ),
        calls.len() > 0 ==> after.sweep is Some && after.sweep->0.closing == found_up(
            before,
            calls,
        ),
        calls.len() == 0 ==> after == before,
    decreases calls.len(),
{
    if calls.len() > 0 {
        let rest = calls.drop_last();
        let here = station.gone_on(before, rest)->0;
        lemma_gone_on(station, before, rest, here);
        lemma_step(station, here, calls.last(), after, Step::On);
        assert forall|i: int| 0 <= i < calls.len() implies goes_on(
            reply(station, position(before) + i, #[trigger] calls[i]),
        ) by {
            if i < rest.len() {
                assert(calls[i] == rest[i]);
            }
        }
    }
}

/// A turn goes through the positions of a search in order, from where the worker stood. It ends
/// with the first call that brings a job, which is then the job to run; with the first that was
/// disturbed, which the next turn makes again; or with the last position. In that last case every
/// queue from there on was empty: the worker leaves if the flag was up when the search began,
/// spins if it has spun less than 200 times in a row, and else sleeps.
pub proof fn law_turn_searches_in_order<J>(
    before: Worker<J>,
    after: Worker<J>,
    calls: Seq<Call<J>>,
    action: Action<J>,
)
    requires
        before.dutiful(),
        exists|worker: &mut Worker<J>|
            *worker == before && *final(worker) == after && #[trigger] call_ensures(
                Worker::<J>::turn,
                (worker,),
                action,
            ),
        after.calls() == before.calls() + calls,
    ensures
        after.dutiful(),
        after.station() == before.station(),
        calls.len() > 0,
        ({
            let station = before.station();
            let from = position(before.patrol());
            let spins = before.patrol().spins;
            let last = calls.len() - 1;
            let end = 2 + station.peers().len();
            &&& from + last <= end
            &&& forall|i: int|
                0 <= i < last ==> goes_on(reply(station, from + i, #[trigger] calls[i]))
            &&& match reply(station, from + last, calls[last]) {
                Some(Reply::Got(job)) => {
                    &&& action == Action::Run(job)
                    &&& position(after.patrol()) == 0
                    &&& after.patrol().spins == spins
                },
                Some(Reply::Disturbed) => {
                    &&& action == Action::<J>::Again
                    &&& position(after.patrol()) == from + last
                    &&& after.patrol().sweep->0.closing == found_up(before.patrol(), calls)
                    &&& after.patrol().spins == spins
                },
                Some(Reply::Nothing) => {
                    &&& from + last == end
                    &&& position(after.patrol()) == 0
                    &&& if found_up(before.patrol(), calls) {
                        action == Action::<J>::Leave && after.patrol().spins == spins
                    } else if spins < 200 {
                        action == Action::<J>::Spin && after.patrol().spins == spins + 1
                    } else {
                        action == Action::<J>::Park && after.patrol().spins == 0
                    }
                },
                _ => false,
            }
        }),
{
    let station = before.station();
    station.lemma_peer_count();
    let worker = choose|worker: &mut Worker<J>|
        *worker == before && *final(worker) == after && #[trigger] call_ensures(
            Worker::<J>::turn,
            (worker,),
            action,
        );
    let made = choose|made: Seq<Call<J>>| #[trigger]
        station.turned(before.patrol(), made, after.patrol(), action) && after.calls()
            == before.calls() + made;
    lemma_same_tail(before.calls(), calls, made);
    let rest = calls.drop_last();
    let here = station.gone_on(before.patrol(), rest)->0;
    lemma_gone_on(station, before.patrol(), rest, here);
    lemma_step(station, here, calls.last(), after.patrol(), Step::Done(action));
    assert forall|i: int| 0 <= i < rest.len() implies goes_on(
        reply(station, position(before.patrol()) + i, #[trigger] calls[i]),
    ) by {
        assert(calls[i] == rest[i]);
    }
    assert(rest.len() > 0 ==> rest[0] == calls[0]);
}

/// A worker that is told to leave had read the flag and found it up, and after that found its own
/// queue, the global queue and the queue of every worker empty.
pub proof fn law_leaves_all_queues_empty<J>(
    before: Worker<J>,
    after: Worker<J>,
    action: Action<J>,
)
    requires
        before.dutiful(),
        exists|worker: &mut Worker<J>|
            *worker == before && *final(worker) == after && #[trigger] call_ensures(
                Worker::<J>::turn,
                (worker,),
                action,
            ),
        action is Leave,
    ensures
        exists|since: int|
            {
                &&& 0 <= since < after.calls().len()
                &&& #[trigger] after.calls()[since] == Call::<J>::Loaded(
                    before.station().flag(),
                    true,
                )
                &&& after.calls().skip(since).contains(Call::Popped(before.station().own(), None))
                &&& after.calls().skip(since).contains(
                    Call::Stole(before.station().global(), Steal::Empty),
                )
                &&& forall|i: int|
                    0 <= i < before.station().peers().len() ==> after.calls().skip(since).contains(
                        Call::Robbed(#[trigger] before.station().peers()[i], Steal::Empty),
                    )
            },
{
    let station = before.station();
    station.lemma_peer_count();
    let calls = after.calls();
    let end = crate::search::sources(station.peers().len());
    assert(station.swept(calls, true, end));
    let since = choose|since: int|
        0 <= since < calls.len() && #[trigger] calls[since] == Call::<J>::Loaded(
            station.flag(),
            true,
        ) && forall|source: Source|
            source.place() < end ==> #[trigger] station.empty_since(calls, since, source);
    let tail = calls.skip(since);
    lemma_empty_since(station, calls, since, Source::Own);
    lemma_empty_since(station, calls, since, Source::Global);
    assert forall|i: int| 0 <= i < station.peers().len() implies tail.contains(
        Call::Robbed(#[trigger] station.peers()[i], Steal::Empty),
    ) by {
        lemma_empty_since(station, calls, since, Source::Peer(i as usize));
    }
}

proof fn lemma_empty_since<J>(
    station: Station<J>,
    calls: Seq<Call<J>>,
    since: int,
    source: Source,
)
    requires
        0 <= since < calls.len(),
        station.empty_since(calls, since, source),
        source matches Source::Peer(i) ==> i < station.peers().len(),
    ensures
        calls.skip(since).contains(
            match source {
                Source::Own => Call::Popped(station.own(), None),
                Source::Global => Call::Stole(station.global(), Steal::Empty),
                Source::Peer(i) => Call::Robbed(station.peers()[i as int], Steal::Empty),
            },
        ),
{
    let i = choose|i: int|
        since < i < calls.len() && station.answer_in(source, #[trigger] calls[i]) == Some(
            Steal::<J>::Empty,
        );
    assert(calls.skip(since)[i - since] == calls[i]);
}

/// A worker that found a job and has run it to its end adds one to its own counter and to nothing
/// else, and begins to count its spins anew.
pub proof fn law_finished_counts_one_job<J>(
    world: World<J>,
    before: Worker<J>,
    after: Worker<J>,
    calls: Seq<Call<J>>,
)
    requires
        before.dutiful(),
        exists|worker: &mut Worker<J>|
            *worker == before && *final(worker) == after && #[trigger] call_ensures(
                Worker::<J>::finished,
                (worker,),
                (),
            ),
        after.calls() == before.calls() + calls,
    ensures
        after.dutiful(),
        after.station() == before.station(),
        after.patrol().spins == 0,
        position(after.patrol()) == position(before.patrol()),
        calls.len() == 1,
        calls[0] matches Call::Added(counter, amount, _) && counter == before.station().counter()
            && amount == 1,
        world.after_all(calls).agrees(
            world.with_count(
                before.station().counter(),
                (world.count)(before.station().counter()) + 1,
            ),
        ),
{
    let worker = choose|worker: &mut Worker<J>|
        *worker == before && *final(worker) == after && #[trigger] call_ensures(
            Worker::<J>::finished,
            (worker,),
            (),
        );
    let call = choose|call: Call<J>| #[trigger]
        before.station().counts_one(call) && after.calls() == before.calls().push(call);
    assert(before.calls().push(call) =~= before.calls() + seq![call]);
    lemma_same_tail(before.calls(), calls, seq![call]);
    assert(calls.drop_last() =~= Seq::empty());
    assert(world.after_all(calls.drop_last()) == world);
}

/// A worker that has a core pins its thread to this core, once, and hands on the answer. One that
/// has none makes no call.
pub proof fn law_pins_to_its_core<J>(
    before: Worker<J>,
    after: Worker<J>,
    calls: Seq<Call<J>>,
    accepted: bool,
)
    requires
        before.dutiful(),
        exists|worker: &mut Worker<J>|
            *worker == before && *final(worker) == after && #[trigger] call_ensures(
                Worker::<J>::pin,
                (worker,),
                accepted,
            ),
        after.calls() == before.calls() + calls,
    ensures
        after.dutiful(),
        after.station() == before.station(),
        after.patrol() == before.patrol(),
        match before.station().target() {
            Some(core) => calls.len() == 1 && calls[0] == Call::<J>::Pinned(core, accepted),
            None => calls.len() == 0 && accepted,
        },
{
    let worker = choose|worker: &mut Worker<J>|
        *worker == before && *final(worker) == after && #[trigger] call_ensures(
            Worker::<J>::pin,
            (worker,),
            accepted,
        );
    let made = choose|made: Seq<Call<J>>| #[trigger]
        crate::affinity::pinning(before.station().target(), made, accepted) && after.calls()
            == before.calls() + made;
    lemma_same_tail(before.calls(), calls, made);
}

/// A worker that has just been employed stands at the beginning of a search and has not spun.
pub proof fn law_employed_worker_begins_afresh<J>(station: Station<J>, worker: Worker<J>)
    requires
        call_ensures(employ::<J>, (station,), worker),
    ensures
        worker.station() == station,
        worker.dutiful(),
        worker.calls().len() == 0,
        position(worker.patrol()) == 0,
        worker.patrol().spins == 0,
{
}

/// Idle turns follow one pattern, in a pool of any size: let a worker that has not spun take turns,
/// find nothing in any of them, and never find the flag up. Then it spins 200 times, sleeps once,
/// and begins anew: the turn with the number `k`, counted from zero, tells it to sleep if `k`
/// leaves the remainder 200 when divided by 201, and to spin otherwise.
pub proof fn law_spins_two_hundred_times_then_sleeps<J>(
    workers: Seq<Worker<J>>,
    actions: Seq<Action<J>>,
    k: int,
)
    requires
        workers.len() == actions.len() + 1,
        workers[0].dutiful(),
        workers[0].patrol().spins == 0,
        forall|i: int|
            0 <= i < actions.len() ==> exists|worker: &mut Worker<J>|
                *worker == workers[i] && *final(worker) == workers[i + 1]
                    && #[trigger] call_ensures(Worker::<J>::turn, (worker,), #[trigger] actions[i]),
        forall|i: int|
            0 <= i < actions.len() ==> #[trigger] actions[i] is Spin || actions[i] is Park,
        0 <= k < actions.len(),
    ensures
        k % 201 == 200 ==> actions[k] is Park,
        k % 201 != 200 ==> actions[k] is Spin,
        workers[k + 1].dutiful(),
        workers[k + 1].patrol().spins == (k + 1) % 201,
{
    assert forall|i: int| 0 <= i < actions.len() implies #[trigger] rests_once(
        workers[i],
        workers[i + 1],
        actions[i],
    ) by {
        if workers[i].dutiful() {
            assert(actions[i] is Spin || actions[i] is Park);
            let calls = choose|calls: Seq<Call<J>>|
                workers[i + 1].calls() == #[trigger] (workers[i].calls() + calls);
            law_turn_searches_in_order(workers[i], workers[i + 1], calls, actions[i]);
        }
    }
    lemma_rests(workers, actions, k);
}

/// A turn in which nothing was found and the flag was not up.
spec fn rests_once<J>(before: Worker<J>, after: Worker<J>, action: Action<J>) -> bool {
    before.dutiful() ==> {
        &&& after.dutiful()
        &&& if before.patrol().spins < 200 {
            action is Spin && after.patrol().spins == before.patrol().spins + 1
        } else {
            action is Park && after.patrol().spins == 0
        }
    }
}

proof fn lemma_rests<J>(workers: Seq<Worker<J>>, actions: Seq<Action<J>>, k: int)
    requires
        workers.len() == actions.len() + 1,
        workers[0].dutiful(),
        workers[0].patrol().spins == 0,
        forall|i: int|
            0 <= i < actions.len() ==> #[trigger] rests_once(
                workers[i],
                workers[i + 1],
                actions[i],
            ),
        0 <= k < actions.len(),
    ensures
        k % 201 == 200 ==> actions[k] is Park,
        k % 201 != 200 ==> actions[k] is Spin,
        workers[k + 1].dutiful(),
        workers[k + 1].patrol().spins == (k + 1) % 201,
    decreases k,
{
    if k > 0 {
        lemma_rests(workers, actions, k - 1);
    }
    assert(rests_once(workers[k], workers[k + 1], actions[k]));
}

/// The call has brought a job.
pub open spec fn finds<J>(call: Call<J>) -> bool {
    match call {
        Call::Popped(_, Some(_)) => true,
        Call::Stole(_, Steal::Success(_)) => true,
        Call::Robbed(_, Steal::Success(_)) => true,
        _ => false,
    }
}

/// How many searches were begun since a job was last counted.
pub open spec fn begun_since<J>(calls: Seq<Call<J>>) -> int
    decreases calls.len(),
{
    if calls.len() == 0 {
        0
    } else {
        match calls.last() {
            Call::Added(_, _, _) => 0,
            Call::Loaded(_, _) => begun_since(calls.drop_last()) + 1,
            _ => begun_since(calls.drop_last()),
        }
    }
}

/// How many jobs were found since a job was last counted.
pub open spec fn found_since<J>(calls: Seq<Call<J>>) -> int
    decreases calls.len(),
{
    if calls.len() == 0 {
        0
    } else if calls.last() is Added {
        0
    } else {
        found_since(calls.drop_last()) + if finds(calls.last()) {
            1int
        } else {
            0int
        }
    }
}

/// How many searches a worker has gone through to their end in vain since it joined or last
/// counted a job: all that were begun, without those that found a job and one that is under way.
pub open spec fn vain_searches<J>(worker: Worker<J>) -> int {
    begun_since(worker.calls()) - found_since(worker.calls()) - if position(worker.patrol()) == 0 {
        0int
    } else {
        1int
    }
}

/// The flag was down whenever it was read, and every job was counted right after it was found.
pub open spec fn ordinary<J>(calls: Seq<Call<J>>) -> bool {
    &&& forall|i: int|
        0 <= i < calls.len() ==> (#[trigger] calls[i] matches Call::Loaded(_, value) ==> !value)
    &&& forall|i: int|
        0 <= i < calls.len() ==> (#[trigger] calls[i] is Added ==> i > 0 && finds(calls[i - 1]))
}

proof fn lemma_spins_on_record<J>(station: Station<J>, calls: Seq<Call<J>>)
    requires
        station.life(calls) is Some,
        ordinary(calls),
    ensures
        ({
            let patrol = station.life(calls)->0;
            let vain = begun_since(calls) - found_since(calls) - if position(patrol) == 0 {
                0int
            } else {
                1int
            };
            &&& vain >= 0
            &&& patrol.spins == vain % 201
            &&& patrol.sweep matches Some(sweep) ==> !sweep.closing
            &&& position(patrol) < 3 + station.peers().len()
            &&& calls.len() > 0 && finds(calls.last()) ==> position(patrol) == 0
        }),
    decreases calls.len(),
{
    station.lemma_peer_count();
    if calls.len() > 0 {
        let rest = calls.drop_last();
        let last = calls.len() - 1;
        assert(calls.last() == calls[last]);
        assert(ordinary(rest)) by {
            assert forall|i: int| 0 <= i < rest.len() implies (
            #[trigger] rest[i] matches Call::Loaded(_, value) ==> !value) by {
                assert(rest[i] == calls[i]);
            }
            assert forall|i: int| 0 <= i < rest.len() && #[trigger] rest[i] is Added implies i > 0
                && finds(rest[i - 1]) by {
                assert(rest[i] == calls[i]);
                if i > 0 {
                    assert(rest[i - 1] == calls[i - 1]);
                }
            }
        }
        lemma_spins_on_record(station, rest);
        let before = station.life(rest)->0;
        let after = station.life(calls)->0;
        if station.counts_one(calls.last()) {
            assert(finds(calls[last - 1]));
            assert(rest.last() == calls[last - 1]);
        } else if station.pins(calls.last()) {
        } else {
            let (_, step) = station.step(before, calls.last())->0;
            lemma_step(station, before, calls.last(), after, step);
        }
    }
}

/// The spin count is what the record says, in a pool of any size: if a worker of an open pool has
/// gone through `n` searches in vain since it joined or last counted a job, its spin count is
/// `n % 201`; and a turn in which it finds nothing tells it to sleep if `n % 201` is 200, and to
/// spin otherwise.
pub proof fn law_spin_count_is_on_record<J>(
    before: Worker<J>,
    after: Worker<J>,
    action: Action<J>,
)
    requires
        before.dutiful(),
        ordinary(before.calls()),
        exists|worker: &mut Worker<J>|
            *worker == before && *final(worker) == after && #[trigger] call_ensures(
                Worker::<J>::turn,
                (worker,),
                action,
            ),
    ensures
        vain_searches(before) >= 0,
        before.patrol().spins == vain_searches(before) % 201,
        action is Park ==> vain_searches(before) % 201 == 200,
        action is Spin ==> vain_searches(before) % 201 != 200,
        action is Park || action is Spin ==> after.patrol().spins == (vain_searches(before) + 1)
            % 201,
{
    lemma_spins_on_record(before.station(), before.calls());
    let calls = choose|calls: Seq<Call<J>>|
        after.calls() == #[trigger] (before.calls() + calls);
    law_turn_searches_in_order(before, after, calls, action);
}

proof fn lemma_still<J>(world: World<J>, calls: Seq<Call<J>>)
    requires
        forall|i: int|
            0 <= i < calls.len() ==> {
                ||| #[trigger] calls[i] is Loaded
                ||| calls[i] matches Call::Popped(_, None)
                ||| calls[i] matches Call::Stole(_, Steal::Empty)
                ||| calls[i] matches Call::Robbed(_, Steal::Empty)
            },
        world.bears_all(calls),
    ensures
        world.after_all(calls) == world,
        forall|i: int| 0 <= i < calls.len() ==> world.bears(#[trigger] calls[i]),
    decreases calls.len(),
{
    if calls.len() > 0 {
        let rest = calls.drop_last();
        assert forall|i: int| 0 <= i < rest.len() implies {
            ||| #[trigger] rest[i] is Loaded
            ||| rest[i] matches Call::Popped(_, None)
            ||| rest[i] matches Call::Stole(_, Steal::Empty)
            ||| rest[i] matches Call::Robbed(_, Steal::Empty)
        } by {
            assert(rest[i] == calls[i]);
        }
        lemma_still(world, rest);
        assert(calls.last() == calls[calls.len() - 1]);
        assert forall|i: int| 0 <= i < calls.len() implies world.bears(#[trigger] calls[i]) by {
            if i < rest.len() {
                assert(rest[i] == calls[i]);
            }
        }
    }
}

/// The jobs in the queue of the worker with the number `i`, as this station reaches it.
pub open spec fn jobs_of_peer<J>(world: World<J>, station: Station<J>, i: int) -> Seq<J> {
    (world.kept)((world.behind)(station.peers()[i]))
}

/// What a turn comes to while nobody else calls, for a worker at the beginning of a search: it
/// takes the newest job of its own queue; if there is none, the oldest of the global queue; if
/// there is none either, the oldest of the first queue of a worker, by number, that has one. This
/// job it is told to run; it is gone from its queue, and nothing else has changed. If there is no
/// job at all, nothing changes: the worker leaves if the flag is up, and else spins or sleeps.
pub proof fn law_turn_in_a_still_world<J>(
    world: World<J>,
    before: Worker<J>,
    after: Worker<J>,
    calls: Seq<Call<J>>,
    action: Action<J>,
)
    requires
        before.dutiful(),
        position(before.patrol()) == 0,
        exists|worker: &mut Worker<J>|
            *worker == before && *final(worker) == after && #[trigger] call_ensures(
                Worker::<J>::turn,
                (worker,),
                action,
            ),
        after.calls() == before.calls() + calls,
        world.bears_all(calls),
        !(action is Again),
    ensures
        ({
            let station = before.station();
            let own = (world.kept)(station.own());
            let global = (world.waiting)(station.global());
            let next = world.after_all(calls);
            &&& calls[0] == Call::<J>::Loaded(station.flag(), (world.up)(station.flag()))
            &&& own.len() > 0 ==> action == Action::Run(own.last()) && next.agrees(
                world.with_kept(station.own(), own.drop_last()),
            )
            &&& own.len() == 0 && global.len() > 0 ==> action == Action::Run(global[0])
                && next.agrees(world.with_waiting(station.global(), global.drop_first()))
            &&& own.len() == 0 && global.len() == 0 ==> forall|i: int|
                0 <= i < station.peers().len() && #[trigger] jobs_of_peer(world, station, i).len()
                    > 0 && (forall|j: int|
                    0 <= j < i ==> (#[trigger] jobs_of_peer(world, station, j)).len() == 0)
                    ==> action == Action::Run(jobs_of_peer(world, station, i)[0]) && next.agrees(
                    world.with_kept(
                        (world.behind)(station.peers()[i]),
                        jobs_of_peer(world, station, i).drop_first(),
                    ),
                )
            &&& own.len() == 0 && global.len() == 0 && (forall|j: int|
                0 <= j < station.peers().len() ==> (#[trigger] jobs_of_peer(
                    world,
                    station,
                    j,
                )).len() == 0) ==> next.agrees(world) && if (world.up)(station.flag()) {
                action == Action::<J>::Leave
            } else if before.patrol().spins < 200 {
                action == Action::<J>::Spin
            } else {
                action == Action::<J>::Park
            }
        }),
{
    law_turn_searches_in_order(before, after, calls, action);
    let station = before.station();
    let rest = calls.drop_last();
    let last = calls.len() - 1;
    assert(calls.last() == calls[last]);
    assert forall|i: int| 0 <= i < rest.len() implies {
        ||| #[trigger] rest[i] is Loaded
        ||| rest[i] matches Call::Popped(_, None)
        ||| rest[i] matches Call::Stole(_, Steal::Empty)
        ||| rest[i] matches Call::Robbed(_, Steal::Empty)
    } by {
        assert(goes_on(reply(station, i, calls[i])));
        assert(rest[i] == calls[i]);
    }
    lemma_still(world, rest);
    assert(world.bears(calls[last]));
    assert(last > 0);
    assert(goes_on(reply(station, 0, calls[0])));
    assert(rest[0] == calls[0]);
    if last > 1 {
        assert(goes_on(reply(station, 1, calls[1])));
        assert(rest[1] == calls[1]);
    }
    if last > 2 {
        assert(goes_on(reply(station, 2, calls[2])));
        assert(rest[2] == calls[2]);
    }
    assert forall|j: int| 0 <= j < last - 3 implies (#[trigger] jobs_of_peer(
        world,
        station,
        j,
    )).len() == 0 by {
        assert(goes_on(reply(station, j + 3, calls[j + 3])));
        assert(rest[j + 3] == calls[j + 3]);
        assert(world.bears(rest[j + 3]));
    }
    if last > 2 {
        let found = last - 3;
        assert(jobs_of_peer(world, station, found) == jobs_of_peer(world, station, found));
    }
}

} // verus!
