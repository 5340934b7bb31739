//! What the actors tell each other.

use vstd::prelude::*;
use crate::state_update::BlockStateUpdate;
use crate::types::{PoolClass, PoolData, PoolId};

verus! {

/// A message on the bus that connects the actors.
#[derive(Debug, Clone)]
pub enum Message {
    /// Pools were discovered and are to be loaded, each with its class.
    FetchPools(Vec<(PoolId, PoolClass)>),
    /// A pool was loaded.
    PoolLoaded(PoolData),
    /// A block was applied and touched registered pools.
    BlockStateUpdate(BlockStateUpdate),
    /// Every actor is to stop.
    Stop,
}

/// What one receive on the bus yields to a subscriber.
#[derive(Debug, Clone)]
pub enum Delivery {
    /// The next message, in the order of publication.
    Message(Message),
    /// The subscriber fell behind: so many messages were dropped from its
    /// backlog, and the next receive continues after them.
    Lagged(u64),
    /// The bus is closed: no publisher is left.
    Closed,
}

} // verus!
