//! Which worker is woken for a new job.

use vstd::prelude::*;

verus! {

/// The worker woken for the submission with this ticket, in a pool of `workers` workers.
pub open spec fn wake_target(ticket: int, workers: int) -> int {
    ticket % workers
}

/// Chooses the worker to wake for the submission with this ticket.
pub fn worker_to_wake(ticket: usize, workers: usize) -> (worker: usize)
    requires
        workers > 0,
    ensures
        worker == wake_target(ticket as int, workers as int),
        worker < workers,
{
    ticket % workers
}

/// The ticket among `workers` consecutive ones, beginning with `first`, that wakes `worker`.
pub open spec fn ticket_for(first: int, workers: int, worker: int) -> int {
    first + (worker - first) % workers
}

/// Workers are woken round-robin: of any `workers` consecutive tickets, each worker is woken by
/// exactly one.
pub proof fn law_round_robin(first: nat, workers: nat, worker: nat)
    requires
        worker < workers,
    ensures
        ({
            let ticket = ticket_for(first as int, workers as int, worker as int);
            &&& first <= ticket < first + workers
            &&& wake_target(ticket, workers as int) == worker
            &&& forall|other: int|
                first <= other < first + workers && #[trigger] wake_target(other, workers as int)
                    == worker ==> other == ticket
        }),
{
    let n = workers as int;
    let d = (worker - first) % n;
    let ticket = first + d;
    vstd::arithmetic::div_mod::lemma_mod_bound(worker - first, n);
    vstd::arithmetic::div_mod::lemma_add_mod_noop_right(first as int, worker - first, n);
    vstd::arithmetic::div_mod::lemma_small_mod(worker, workers);
    assert(wake_target(ticket, n) == worker);
    assert forall|other: int|
        first <= other < first + workers && #[trigger] wake_target(
            other,
            n,
        ) == worker implies other == ticket by {
        vstd::arithmetic::div_mod::lemma_fundamental_div_mod(other, n);
        vstd::arithmetic::div_mod::lemma_fundamental_div_mod(ticket, n);
        let a = other / n;
        let b = ticket / n;
        assert(other - ticket == n * (a - b)) by (nonlinear_arith)
            requires
                other == n * a + worker,
                ticket == n * b + worker,
        ;
        assert(a == b) by (nonlinear_arith)
            requires
                other - ticket == n * (a - b),
                -n < other - ticket < n,
        ;
    }
}

/// The ticket of a submission and the worker that it names differ by whole rounds through the
/// workers.
pub proof fn law_ticket_is_whole_rounds_and_the_worker(ticket: usize, workers: usize, worker: usize)
    requires
        workers > 0,
        call_ensures(worker_to_wake, (ticket, workers), worker),
    ensures
        worker < workers,
        ticket == (ticket / workers) * workers + worker,
        ticket < workers ==> worker == ticket,
{
    vstd::arithmetic::div_mod::lemma_fundamental_div_mod(ticket as int, workers as int);
    vstd::arithmetic::mul::lemma_mul_is_commutative(
        (ticket / workers) as int,
        workers as int,
    );
    if ticket < workers {
        vstd::arithmetic::div_mod::lemma_small_mod(ticket as nat, workers as nat);
    }
}

} // verus!
