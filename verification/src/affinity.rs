//! Which core a worker is pinned to.

use vstd::prelude::*;

use core_affinity::CoreId;

use crate::entry::journal::{listed, Call, Journal};

verus! {

/// The core of the worker with the number `id`: the workers take the cores in turn. There is
/// none if no cores are known.
pub open spec fn assigned_core(id: int, core_ids: Seq<CoreId>) -> Option<CoreId> {
    if core_ids.len() == 0 {
        None
    } else {
        Some(core_ids[id % core_ids.len() as int])
    }
}

/// Chooses the core of the worker with the number `id`.
pub fn target_core(id: usize, core_ids: &Vec<CoreId>) -> (core: Option<CoreId>)
    ensures
        core == assigned_core(id as int, core_ids@),
{
    if core_ids.len() == 0 {
        None
    } else {
        Some(core_ids[id % core_ids.len()])
    }
}

/// These are the calls by which a thread is pinned to its core, if it has one: a thread without a
/// core is left alone, and there is nothing to refuse.
pub open spec fn pinning<J>(
    target: Option<CoreId>,
    calls: Seq<Call<J>>,
    accepted: bool,
) -> bool {
    match target {
        Some(core) => calls == seq![Call::<J>::Pinned(core, accepted)],
        None => calls == Seq::<Call<J>>::empty() && accepted,
    }
}

/// Pins the calling thread to its core, if it has one. The answer is `false` if the operating
/// system refused, so that the thread runs unpinned although it has a core.
pub fn pin<J>(target: Option<CoreId>, journal: &mut Journal<J>) -> (accepted: bool)
    requires
        target matches Some(core) ==> listed::<J>(core),
    ensures
        exists|calls: Seq<Call<J>>| #[trigger]
            pinning(target, calls, accepted) && final(journal).calls() == old(journal).calls()
                + calls,
{
    match target {
        Some(core) => {
            let accepted = journal.pin(core);
            proof {
                let calls = seq![Call::<J>::Pinned(core, accepted)];
                assert(pinning(target, calls, accepted));
                assert(journal.calls() =~= old(journal).calls() + calls);
            }
            accepted
        },
        None => {
            proof {
                let calls = Seq::<Call<J>>::empty();
                assert(pinning(target, calls, true));
                assert(journal.calls() =~= old(journal).calls() + calls);
            }
            true
        },
    }
}

/// As long as there are enough cores, worker N has core N, so no two workers share one.
pub proof fn law_worker_n_on_core_n(id: nat, core_ids: Seq<CoreId>)
    requires
        id < core_ids.len(),
    ensures
        assigned_core(id as int, core_ids) == Some(core_ids[id as int]),
{
    vstd::arithmetic::div_mod::lemma_small_mod(id, core_ids.len());
}

/// With more workers than cores, the cores are dealt out in rounds: the workers `id` and
/// `id + core_ids.len()` have the same core.
pub proof fn law_cores_dealt_in_rounds(id: nat, core_ids: Seq<CoreId>)
    ensures
        assigned_core(id as int, core_ids) == assigned_core(
            (id + core_ids.len()) as int,
            core_ids,
        ),
{
    if core_ids.len() > 0 {
        vstd::arithmetic::div_mod::lemma_mod_add_multiples_vanish(
            id as int,
            core_ids.len() as int,
        );
    }
}

/// The chosen core is one of those that are known, counted off in turn; there is none only if none
/// is known.
pub proof fn law_cores_are_counted_off(id: usize, core_ids: Vec<CoreId>, core: Option<CoreId>)
    requires
        call_ensures(target_core, (id, &core_ids), core),
    ensures
        core is None <==> core_ids@.len() == 0,
        core_ids@.len() > 0 ==> core == Some(core_ids@[id as int % core_ids@.len() as int]),
        id < core_ids@.len() ==> core == Some(core_ids@[id as int]),
{
    if id < core_ids@.len() {
        vstd::arithmetic::div_mod::lemma_small_mod(id as nat, core_ids@.len());
    }
}

} // verus!
