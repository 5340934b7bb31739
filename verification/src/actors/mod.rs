//! The decisions of the actors. Each actor is a state machine: what it waits
//! for, what it does when that arrives. Whoever runs an actor performs the
//! actions and hands back what came of them.

use vstd::prelude::*;

pub mod block_state_actor;
pub mod history_loader_actor;
pub mod pool_loader_actor;
pub mod state_update_processor;

verus! {

/// What every actor has.
pub trait Actor {
    /// The name of the actor, as it appears in logs.
    fn name(&self) -> &'static str;
}

} // verus!
