pub mod assoc;
pub mod bytes;
pub mod codec;
pub mod events;
pub mod game;
pub mod player;
pub mod registry;
pub mod session;

use vstd::prelude::*;

verus! {

/// Number of scheduler ticks per second.
pub const SERVER_TICK_PER_SEC: u64 = 20;

/// Milliseconds a session may stay silent before it is swept.
pub const INACTIVITY_TIMEOUT_MS: u64 = 2000;

/// Largest datagram payload the transport will carry.
pub const MAX_MESSAGE_SIZE: usize = 65535;

/// Length of one tick in milliseconds, derived from the tick rate.
pub fn tick_budget_ms() -> (r: u64)
    ensures
        r == 1000u64 / SERVER_TICK_PER_SEC,
{
    1000 / SERVER_TICK_PER_SEC
}

/// Whether the drain loop may poll once more: only while the elapsed part of
/// the tick is still under its budget.
pub fn should_poll(elapsed_ms: u64, budget_ms: u64) -> (r: bool)
    ensures
        r == (elapsed_ms < budget_ms),
{
    elapsed_ms < budget_ms
}

/// How long the scheduler suspends at the end of a tick: the unspent part of
/// the budget, and nothing when the budget is already overrun.
pub fn remaining_budget_ms(elapsed_ms: u64, budget_ms: u64) -> (r: u64)
    ensures
        elapsed_ms < budget_ms ==> r == budget_ms - elapsed_ms,
        elapsed_ms >= budget_ms ==> r == 0,
{
    if elapsed_ms < budget_ms {
        budget_ms - elapsed_ms
    } else {
        0
    }
}

} // verus!
