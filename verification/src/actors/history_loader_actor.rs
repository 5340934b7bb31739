//! The discovery of pools: the actor walks the ledger backwards in batches
//! of blocks and finds, in the logs of each batch, the pools that emitted
//! them.

use vstd::prelude::*;
use crate::actors::Actor;
use crate::messages::Message;
use crate::ordered_map::OrdMap;
use crate::sequences::lemma_push_members;
use crate::pool_loaders::{first_recognised, Loader, PoolLoaders};
use crate::types::{LoaderConfig, Log, PoolClass, PoolId};

verus! {

/// Where the scan stands.
#[derive(Debug, Clone, Copy, PartialEq, Eq, Structural)]
pub enum ScanState {
    /// The scan has not begun.
    Created,
    /// The scan starts at the newest block, whose height is being read.
    AwaitingHeight,
    /// The blocks from `current_block` up to the start were scanned, in
    /// `batches_done` batches.
    Scanning { current_block: u64, batches_done: usize },
    /// The scan is over.
    Finished,
}

/// What whoever runs the scan does next.
#[derive(Debug, Clone, Copy, PartialEq, Eq, Structural)]
pub enum ScanNext {
    /// Read the height of the ledger and hand it to `on_height`.
    QueryHeight,
    /// Fetch the logs of the blocks `from_block` to `to_block`, both
    /// included, hand them to `process_logs`, and ask `next_batch`.
    Scan { from_block: u64, to_block: u64 },
    /// End: the scan is complete.
    Finish,
    /// End: the height of the ledger could not be read.
    Fail,
}

/// The state and the next step after a batch, from where the scan stood: one
/// more batch below `current_block` while batches are left, the batch is not
/// empty, and more than one batch of blocks lies below; else the end.
pub open spec fn batch_after(config: LoaderConfig, current_block: u64, batches_done: usize) -> (
    ScanState,
    ScanNext,
) {
    if batches_done < config.num_batches && 0 < config.block_batch_size < current_block {
        (
            ScanState::Scanning {
                current_block: (current_block - config.block_batch_size) as u64,
                batches_done: (batches_done + 1) as usize,
            },
            ScanNext::Scan {
                from_block: (current_block - config.block_batch_size) as u64,
                to_block: (current_block - 1) as u64,
            },
        )
    } else {
        (ScanState::Finished, ScanNext::Finish)
    }
}

/// The identities of the pools of a list.
pub open spec fn ids(pools: Seq<(PoolId, PoolClass)>) -> Seq<PoolId> {
    pools.map_values(|pool: (PoolId, PoolClass)| pool.0)
}

/// The pools that the logs give away, in the order of the logs, each pool
/// once: where several logs name one pool, the first of them counts.
pub open spec fn discovered(loaders: Seq<(PoolClass, Loader)>, logs: Seq<Log>) -> Seq<
    (PoolId, PoolClass),
>
    decreases logs.len(),
{
    if logs.len() == 0 {
        Seq::empty()
    } else {
        let before = discovered(loaders, logs.drop_last());
        match first_recognised(loaders, &logs.last()) {
            Some(found) => if ids(before).contains(found.0) {
                before
            } else {
                before.push(found)
            },
            None => before,
        }
    }
}

/// The discovery actor.
#[derive(Debug, Clone)]
pub struct HistoryPoolLoaderActor {
    /// How the scan is run.
    pub config: LoaderConfig,
    /// Where the scan stands.
    pub state: ScanState,
}

impl Actor for HistoryPoolLoaderActor {
    fn name(&self) -> (name: &'static str)
        ensures
            name@ == "HistoryPoolLoaderActor"@,
    {
        "HistoryPoolLoaderActor"
    }
}

impl HistoryPoolLoaderActor {
    /// A scan that has not begun.
    pub fn new(config: LoaderConfig) -> (actor: Self)
        ensures
            actor.config == config,
            actor.state == ScanState::Created,
    {
        HistoryPoolLoaderActor { config, state: ScanState::Created }
    }

    /// Begins the scan: at the configured start block, or, where that is
    /// zero, at the newest block, whose height is read first. A scan that
    /// has begun goes on as it stands.
    pub fn begin(&mut self) -> (next: ScanNext)
        ensures
            final(self).config == old(self).config,
            match old(self).state {
                ScanState::Created => if old(self).config.start_block == 0 {
                    final(self).state == ScanState::AwaitingHeight && next == ScanNext::QueryHeight
                } else {
                    (final(self).state, next) == batch_after(
                        old(self).config,
                        old(self).config.start_block,
                        0,
                    )
                },
                ScanState::AwaitingHeight => final(self).state == old(self).state && next
                    == ScanNext::QueryHeight,
                ScanState::Scanning { current_block, batches_done } => (final(self).state, next)
                    == batch_after(old(self).config, current_block, batches_done),
                ScanState::Finished => final(self).state == old(self).state && next
                    == ScanNext::Finish,
            },
    {
        match self.state {
            ScanState::Created => {
                if self.config.start_block == 0 {
                    self.state = ScanState::AwaitingHeight;
                    ScanNext::QueryHeight
                } else {
                    self.advance(self.config.start_block, 0)
                }
            },
            ScanState::AwaitingHeight => ScanNext::QueryHeight,
            ScanState::Scanning { current_block, batches_done } => self.advance(
                current_block,
                batches_done,
            ),
            ScanState::Finished => ScanNext::Finish,
        }
    }

    /// Takes in the height of the newest block, or `None` where it could not
    /// be read: the scan starts below that height, or fails. Where no height
    /// is awaited nothing changes.
    pub fn on_height(&mut self, height: Option<u64>) -> (next: ScanNext)
        ensures
            final(self).config == old(self).config,
            match (old(self).state, height) {
                (ScanState::AwaitingHeight, Some(latest)) => (final(self).state, next)
                    == batch_after(old(self).config, latest, 0),
                (ScanState::AwaitingHeight, None) => final(self).state == ScanState::Finished
                    && next == ScanNext::Fail,
                (ScanState::Finished, _) => final(self).state == old(self).state && next
                    == ScanNext::Finish,
                _ => final(self).state == old(self).state && next == ScanNext::QueryHeight,
            },
    {
        match (self.state, height) {
            (ScanState::AwaitingHeight, Some(latest)) => self.advance(latest, 0),
            (ScanState::AwaitingHeight, None) => {
                self.state = ScanState::Finished;
                ScanNext::Fail
            },
            (ScanState::Finished, _) => ScanNext::Finish,
            _ => ScanNext::QueryHeight,
        }
    }

    /// The batch after the one just scanned: the blocks directly below it,
    /// or the end of the scan. Before the scan has begun nothing changes.
    pub fn next_batch(&mut self) -> (next: ScanNext)
        ensures
            final(self).config == old(self).config,
            match old(self).state {
                ScanState::Scanning { current_block, batches_done } => (final(self).state, next)
                    == batch_after(old(self).config, current_block, batches_done),
                ScanState::Finished => final(self).state == old(self).state && next
                    == ScanNext::Finish,
                _ => final(self).state == old(self).state && next == ScanNext::QueryHeight,
            },
    {
        match self.state {
            ScanState::Scanning { current_block, batches_done } => self.advance(
                current_block,
                batches_done,
            ),
            ScanState::Finished => ScanNext::Finish,
            _ => ScanNext::QueryHeight,
        }
    }

    /// Moves the scan one batch below `current_block`, or ends it.
    fn advance(&mut self, current_block: u64, batches_done: usize) -> (next: ScanNext)
        ensures
            final(self).config == old(self).config,
            (final(self).state, next) == batch_after(old(self).config, current_block, batches_done),
    {
        let size = self.config.block_batch_size;
        if batches_done < self.config.num_batches && 0 < size && size < current_block {
            let from_block: u64 = current_block - size;
            self.state = ScanState::Scanning {
                current_block: from_block,
                batches_done: batches_done + 1,
            };
            ScanNext::Scan { from_block, to_block: current_block - 1 }
        } else {
            self.state = ScanState::Finished;
            ScanNext::Finish
        }
    }

    /// Finds the pools that the logs of a batch give away and makes the
    /// request to load them: each pool once, in the order of the logs; no
    /// request where the logs give away no pool.
    pub fn process_logs(pool_loaders: &PoolLoaders, logs: &Vec<Log>) -> (request: Option<Message>)
        ensures
            discovered(pool_loaders.entries(), logs@).len() == 0 ==> request is None,
            discovered(pool_loaders.entries(), logs@).len() > 0 ==> (request matches Some(
                Message::FetchPools(pools),
            ) && pools@ == discovered(pool_loaders.entries(), logs@)),
    {
        let ghost loaders = pool_loaders.entries();
        let mut pools: Vec<(PoolId, PoolClass)> = Vec::new();
        let mut seen: OrdMap<PoolId, ()> = OrdMap::new();
        let mut i: usize = 0;
        proof {
            assert(logs@.take(0) =~= Seq::<Log>::empty());
        }
        while i < logs.len()
            invariant
                i <= logs@.len(),
                loaders == pool_loaders.entries(),
                pools@ == discovered(loaders, logs@.take(i as int)),
                forall|id: PoolId| seen@.contains_key(id) <==> ids(pools@).contains(id),
            decreases logs@.len() - i,
        {
            proof {
                assert(logs@.take(i + 1).drop_last() =~= logs@.take(i as int));
                assert(logs@.take(i + 1).last() == logs@[i as int]);
            }
            match pool_loaders.identify_pool_from_log(&logs[i]) {
                Some(found) => {
                    let ghost before = pools@;
                    if seen.insert(found.0, ()).is_none() {
                        pools.push(found);
                        proof {
                            assert(ids(pools@) =~= ids(before).push(found.0));
                            assert forall|id: PoolId| seen@.contains_key(id) <==> ids(
                                pools@,
                            ).contains(id) by {
                                lemma_push_members(ids(before), found.0, id);
                            }
                        }
                    }
                },
                None => {},
            }
            i += 1;
        }
        proof {
            assert(logs@.take(logs@.len() as int) =~= logs@);
        }
        if pools.len() > 0 {
            Some(Message::FetchPools(pools))
        } else {
            None
        }
    }
}

} // verus!
