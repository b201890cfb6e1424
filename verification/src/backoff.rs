//! What a worker does when it has found no job: spin for a while, then sleep.

use vstd::prelude::*;

verus! {

/// How many idle turns in a row a worker spins before it goes to sleep.
pub const MAX_SPINS: usize = 200;

/// What a worker does after a search that found nothing.
#[derive(Clone, Copy, Debug, PartialEq, Eq, Structural)]
pub enum Idle {
    /// Leave the pool: it is shutting down.
    Leave,
    /// Stay on the core for a moment and search again.
    Spin,
    /// Sleep until woken, then search again.
    Park,
}

/// The choice of an idle worker that has spun `spins` times in a row, and the count it goes on
/// with. `closing` says that the pool was shutting down before the search began.
pub open spec fn idle_choice(closing: bool, spins: usize) -> (Idle, usize) {
    if closing {
        (Idle::Leave, spins)
    } else if spins < MAX_SPINS {
        (Idle::Spin, (spins + 1) as usize)
    } else {
        (Idle::Park, 0)
    }
}

/// Chooses what an idle worker does, and the spin count it goes on with.
pub fn idle(closing: bool, spins: usize) -> (choice: (Idle, usize))
    ensures
        choice == idle_choice(closing, spins),
{
    if closing {
        (Idle::Leave, spins)
    } else if spins < MAX_SPINS {
        (Idle::Spin, spins + 1)
    } else {
        (Idle::Park, 0)
    }
}

/// The spin count of a worker that last ran a job, after `turns` idle turns in an open pool.
pub open spec fn spins_after(turns: nat) -> usize
    decreases turns,
{
    if turns == 0 {
        0
    } else {
        idle_choice(false, spins_after((turns - 1) as nat)).1
    }
}

/// A worker of an open pool that finds no job spins exactly `MAX_SPINS` times and then parks,
/// and begins anew after every park: of its idle turns, numbered from zero since it last ran a
/// job, it parks in those that leave the remainder `MAX_SPINS` when divided by `MAX_SPINS + 1`,
/// and spins in all others.
pub proof fn law_spin_then_park(turn: nat)
    ensures
        spins_after(turn) == turn % (MAX_SPINS + 1) as nat,
        idle_choice(false, spins_after(turn)).0 == if turn % (MAX_SPINS + 1) as nat == MAX_SPINS {
            Idle::Park
        } else {
            Idle::Spin
        },
    decreases turn,
{
    if turn > 0 {
        let before = (turn - 1) as nat;
        law_spin_then_park(before);
        let period = (MAX_SPINS + 1) as nat;
        assert(period == 201);
        assert(turn % 201 == if before % 201 == 200 {
            0
        } else {
            before % 201 + 1
        });
    }
}

/// A worker leaves after an empty search if and only if the pool was shutting down before the
/// search began, however often it has spun.
pub proof fn law_leaves_only_when_closing(closing: bool, spins: usize)
    ensures
        idle_choice(closing, spins).0 == Idle::Leave <==> closing,
{
}

/// An idle worker leaves if the pool is shutting down. Otherwise it spins up to 200 times in a row,
/// each of which is counted, and then sleeps and counts from zero.
pub proof fn law_idle_worker_counts_to_two_hundred(
    closing: bool,
    spins: usize,
    choice: (Idle, usize),
)
    requires
        call_ensures(idle, (closing, spins), choice),
    ensures
        closing ==> choice.0 == Idle::Leave,
        !closing && spins < 200 ==> choice.0 == Idle::Spin && choice.1 == spins + 1,
        !closing && spins >= 200 ==> choice.0 == Idle::Park && choice.1 == 0,
{
}

} // verus!
