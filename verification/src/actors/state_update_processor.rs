//! The consumer of block updates: it finds the registered pools that a block
//! touched, says what changed of each, and keeps running counts.

use vstd::prelude::*;
use crate::actors::Actor;
use crate::market_state::MarketState;
use crate::messages::{Delivery, Message};
use crate::ordered_map::is_listing_of;
use crate::primitives::Address;
use crate::state_update::{batch_model, touched_by, AccountDelta, BlockStateUpdate};
use crate::types::PoolClass;

verus! {

/// The running counts of a consumer.
#[derive(Debug, Clone, Copy, PartialEq, Eq, Structural)]
pub struct ProcessorStats {
    /// The number of blocks that touched a registered pool.
    pub blocks_processed: u64,
    /// The number of touched pools, summed over those blocks.
    pub total_affected_pools: usize,
    /// The height of the last such block.
    pub last_block: u64,
}

/// What a block changed of one registered pool.
#[derive(Debug, Clone)]
pub struct PoolChange {
    /// The address of the pool.
    pub address: Address,
    /// The class of the pool.
    pub pool_class: PoolClass,
    /// For each transaction that touched the pool, in order, the number of
    /// storage slots that it changed.
    pub changed_slots: Vec<usize>,
}

/// What the consumer does after a delivery.
#[derive(Debug, Clone)]
pub enum ProcessorAction {
    /// Nothing; receive again.
    Continue,
    /// React to the changes of each touched pool, then receive again.
    React(Vec<PoolChange>),
    /// Report the final counts and end.
    Finish(ProcessorStats),
}

/// For each transaction of the block that touched `address`, in order, the
/// number of storage slots that it changed there.
pub open spec fn changed_slots(batch: Seq<Map<Address, AccountDelta>>, address: Address) -> Seq<nat>
    decreases batch.len(),
{
    if batch.len() == 0 {
        Seq::empty()
    } else if batch.last().contains_key(address) {
        changed_slots(batch.drop_last(), address).push(batch.last()[address].storage.dom().len())
    } else {
        changed_slots(batch.drop_last(), address)
    }
}

/// The pools that the changes are of, in the order of the changes.
pub open spec fn addresses_of(changes: Seq<PoolChange>) -> Seq<Address> {
    changes.map_values(|change: PoolChange| change.address)
}

/// The counts as numbers without a width.
pub open spec fn as_nats(counts: Seq<usize>) -> Seq<nat> {
    counts.map_values(|n: usize| n as nat)
}

/// The counts after a block that touched `affected` registered pools: a
/// block that touched none leaves them as they were.
pub open spec fn counted(stats: ProcessorStats, block_number: u64, affected: nat) -> ProcessorStats {
    if affected == 0 {
        stats
    } else {
        ProcessorStats {
            blocks_processed: if stats.blocks_processed < u64::MAX {
                (stats.blocks_processed + 1) as u64
            } else {
                u64::MAX
            },
            total_affected_pools: if stats.total_affected_pools + affected <= usize::MAX {
                (stats.total_affected_pools + affected) as usize
            } else {
                usize::MAX
            },
            last_block: block_number,
        }
    }
}

/// The consumer of block updates.
#[derive(Debug, Clone)]
pub struct StateUpdateProcessor {
    /// The running counts.
    pub stats: ProcessorStats,
}

impl Actor for StateUpdateProcessor {
    fn name(&self) -> (name: &'static str)
        ensures
            name@ == "StateUpdateProcessor"@,
    {
        "StateUpdateProcessor"
    }
}

impl StateUpdateProcessor {
    /// A consumer that has seen no block.
    pub fn new() -> (processor: Self)
        ensures
            processor.stats == (ProcessorStats {
                blocks_processed: 0,
                total_affected_pools: 0,
                last_block: 0,
            }),
    {
        StateUpdateProcessor {
            stats: ProcessorStats { blocks_processed: 0, total_affected_pools: 0, last_block: 0 },
        }
    }

    /// The running counts.
    pub fn get_stats(&self) -> (stats: ProcessorStats)
        ensures
            stats == self.stats,
    {
        self.stats
    }

    /// What the block changed of the pool at `pool_address`: nothing where no
    /// pool is registered there, else the pool's class and the number of
    /// storage slots that each transaction touching it changed.
    pub fn analyze_pool_changes(
        market: &MarketState,
        pool_address: Address,
        update: &BlockStateUpdate,
    ) -> (change: Option<PoolChange>)
        ensures
            change is Some <==> market.pools@.contains_key(pool_address),
            change matches Some(c) ==> c.address == pool_address && c.pool_class
                == market.pools@[pool_address].pool_class() && as_nats(c.changed_slots@)
                == changed_slots(batch_model(update.state_update@), pool_address),
    {
        let pool = match market.get_pool(&pool_address) {
            Some(pool) => pool,
            None => {
                return None;
            },
        };
        let pool_class = pool.pool_class();
        let mut counts: Vec<usize> = Vec::new();
        let updates = &update.state_update;
        let mut i: usize = 0;
        proof {
            assert(batch_model(updates@.take(0)) =~= Seq::<Map<Address, AccountDelta>>::empty());
            assert(as_nats(counts@) =~= Seq::<nat>::empty());
        }
        while i < updates.len()
            invariant
                i <= updates@.len(),
                as_nats(counts@) == changed_slots(
                    batch_model(updates@.take(i as int)),
                    pool_address,
                ),
            decreases updates@.len() - i,
        {
            let ghost done = batch_model(updates@.take(i as int));
            let ghost next = batch_model(updates@.take(i + 1));
            proof {
                assert(next.drop_last() =~= done);
                assert(next.last() == updates@[i as int].model());
            }
            match updates[i].get(&pool_address) {
                Some(state) => {
                    let ghost before = counts@;
                    let slots = state.storage.len();
                    counts.push(slots);
                    proof {
                        assert(updates@[i as int].model()[pool_address] == state@);
                        assert(as_nats(counts@) =~= as_nats(before).push(slots as nat));
                    }
                },
                None => {
                    proof {
                        assert(!updates@[i as int].model().contains_key(pool_address));
                    }
                },
            }
            i += 1;
        }
        proof {
            assert(updates@.take(updates@.len() as int) =~= updates@);
        }
        Some(PoolChange { address: pool_address, pool_class, changed_slots: counts })
    }

    /// Takes in one block update: finds the registered pools that the block
    /// touched, counts the block if there are any, and says what changed of
    /// each, in ascending order of address.
    pub fn process_state_update(&mut self, market: &MarketState, update: &BlockStateUpdate) -> (changes:
        Vec<PoolChange>)
        ensures
            final(self).stats == counted(old(self).stats, update.block_number, changes@.len()),
            is_listing_of(
                addresses_of(changes@),
                touched_by(batch_model(update.state_update@)).intersect(market.pools@.dom()),
            ),
            forall|i: int|
                0 <= i < changes@.len() ==> (#[trigger] changes@[i]).pool_class
                    == market.pools@[changes@[i].address].pool_class() && as_nats(
                    changes@[i].changed_slots@,
                ) == changed_slots(batch_model(update.state_update@), changes@[i].address),
    {
        let affected = market.get_affected_pools_vec(&update.state_update);
        let mut changes: Vec<PoolChange> = Vec::new();
        if affected.len() == 0 {
            proof {
                assert(addresses_of(changes@) =~= affected@);
            }
            return changes;
        }
        self.stats.blocks_processed = self.stats.blocks_processed.saturating_add(1);
        self.stats.total_affected_pools = self.stats.total_affected_pools.saturating_add(
            affected.len(),
        );
        self.stats.last_block = update.block_number;
        let mut i: usize = 0;
        while i < affected.len()
            invariant
                i <= affected@.len(),
                changes@.len() == i,
                forall|a: Address| affected@.contains(a) ==> market.pools@.contains_key(a),
                forall|j: int| 0 <= j < i ==> (#[trigger] changes@[j]).address == affected@[j],
                forall|j: int|
                    0 <= j < i ==> (#[trigger] changes@[j]).pool_class
                        == market.pools@[changes@[j].address].pool_class() && as_nats(
                        changes@[j].changed_slots@,
                    ) == changed_slots(batch_model(update.state_update@), changes@[j].address),
            decreases affected@.len() - i,
        {
            let address = affected[i];
            assert(affected@.contains(address));
            match Self::analyze_pool_changes(market, address, update) {
                Some(change) => {
                    changes.push(change);
                },
                None => {
                    assert(false);
                },
            }
            i += 1;
        }
        proof {
            assert(addresses_of(changes@) =~= affected@);
        }
        changes
    }

    /// Takes in what a receive on the bus yielded. A block update is
    /// processed against the current market state; a stop or a closed bus
    /// ends the consumer with its final counts; a lag and every other
    /// message change nothing.
    pub fn on_delivery(&mut self, market: &MarketState, delivery: &Delivery) -> (action:
        ProcessorAction)
        ensures
            match *delivery {
                Delivery::Message(Message::BlockStateUpdate(update)) => {
                    &&& action matches ProcessorAction::React(changes)
                    &&& final(self).stats == counted(
                        old(self).stats,
                        update.block_number,
                        changes@.len(),
                    )
                    &&& is_listing_of(
                        addresses_of(changes@),
                        touched_by(batch_model(update.state_update@)).intersect(
                            market.pools@.dom(),
                        ),
                    )
                    &&& forall|i: int|
                        0 <= i < changes@.len() ==> (#[trigger] changes@[i]).pool_class
                            == market.pools@[changes@[i].address].pool_class() && as_nats(
                            changes@[i].changed_slots@,
                        ) == changed_slots(
                            batch_model(update.state_update@),
                            changes@[i].address,
                        )
                },
                Delivery::Message(Message::Stop) | Delivery::Closed => {
                    &&& action matches ProcessorAction::Finish(stats)
                    &&& stats == old(self).stats
                    &&& final(self).stats == old(self).stats
                },
                _ => action is Continue && final(self).stats == old(self).stats,
            },
    {
        match delivery {
            Delivery::Message(Message::BlockStateUpdate(update)) => {
                ProcessorAction::React(self.process_state_update(market, update))
            },
            Delivery::Message(Message::Stop) => ProcessorAction::Finish(self.stats),
            Delivery::Closed => ProcessorAction::Finish(self.stats),
            _ => ProcessorAction::Continue,
        }
    }
}

} // verus!
