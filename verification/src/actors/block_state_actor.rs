//! The ingestion of blocks: the actor follows the height of the ledger,
//! takes in the changes of every block that it has not seen, oldest first,
//! and says which registered pools each block touched.

use vstd::prelude::*;
use crate::actors::Actor;
use crate::market_state::{advanced, apply_batch, Advance, MarketState, OutOfOrderBlock};
use crate::messages::Message;
use crate::ordered_map::is_listing_of;
use crate::primitives::{Address, B256};
use crate::state_update::{batch_model, touched_by, BlockStateUpdate, StateUpdateVec};

verus! {

/// Where the ingestion stands.
#[derive(Debug, Clone, Copy, PartialEq, Eq, Structural)]
pub enum IngestionState {
    /// No height of the ledger was read yet.
    Uninitialized,
    /// Every block up to `cursor` was taken in or skipped; the height of the
    /// ledger is asked for next.
    Polling { cursor: u64 },
    /// The ledger stands at `remote`, and the block after `cursor` is being
    /// fetched.
    Fetching { cursor: u64, remote: u64 },
    /// The actor has stopped.
    Stopped,
}

/// What whoever runs the actor does next.
#[derive(Debug, Clone, Copy, PartialEq, Eq, Structural)]
pub enum Next {
    /// Read the height of the ledger and hand it to `on_height`.
    QueryHeight,
    /// Sleep for so many seconds, then ask `poll`.
    Wait(u64),
    /// Fetch the changes of the block at this height and hand them to
    /// `on_block`.
    Fetch(u64),
    /// End.
    Halt,
}

/// What came of taking in one block.
#[derive(Debug)]
pub struct ProcessedBlock {
    /// The registered pools that the block touched, in ascending order.
    pub affected: Vec<Address>,
    /// The message to publish: the block's update where it touched a
    /// registered pool, nothing where it touched none.
    pub message: Option<Message>,
    /// What the block did to the watermark.
    pub advance: Result<Advance, OutOfOrderBlock>,
}

/// What came of one fetch.
#[derive(Debug)]
pub struct BlockOutcome {
    /// What came of the block, where its changes arrived.
    pub processed: Option<ProcessedBlock>,
    /// The height of the block, where its changes could not be fetched and
    /// the block was passed over.
    pub skipped: Option<u64>,
    /// What to do next.
    pub next: Next,
}

/// The state after the height of the ledger was read, or could not be read.
pub open spec fn after_height(state: IngestionState, height: Option<u64>) -> IngestionState {
    match (state, height) {
        (IngestionState::Uninitialized, Some(h)) => IngestionState::Polling { cursor: h },
        (IngestionState::Polling { cursor }, Some(h)) => if cursor < h {
            IngestionState::Fetching { cursor, remote: h }
        } else {
            state
        },
        _ => state,
    }
}

/// The state after the block that was being fetched was taken in or skipped.
pub open spec fn after_block(state: IngestionState) -> IngestionState {
    match state {
        IngestionState::Fetching { cursor, remote } => if cursor + 1 < remote {
            IngestionState::Fetching { cursor: (cursor + 1) as u64, remote }
        } else {
            IngestionState::Polling { cursor: (cursor + 1) as u64 }
        },
        _ => state,
    }
}

/// What is to be done in a state that an event has just led to.
pub open spec fn next_in(state: IngestionState, poll_interval_secs: u64) -> Next {
    match state {
        IngestionState::Uninitialized => Next::Wait(poll_interval_secs),
        IngestionState::Polling { cursor } => Next::Wait(poll_interval_secs),
        IngestionState::Fetching { cursor, remote } => Next::Fetch((cursor + 1) as u64),
        IngestionState::Stopped => Next::Halt,
    }
}

/// The state is sound: a block is fetched only below the height of the
/// ledger.
pub open spec fn sound(state: IngestionState) -> bool {
    state matches IngestionState::Fetching { cursor, remote } ==> cursor < remote
}

/// The block up to which the ingestion has come, once a height was read.
pub open spec fn cursor_of(state: IngestionState) -> Option<u64> {
    match state {
        IngestionState::Polling { cursor } => Some(cursor),
        IngestionState::Fetching { cursor, remote } => Some(cursor),
        _ => None,
    }
}

/// Nothing that the ledger or a fetch brings ends the ingestion or sets it
/// back: a height that was read or not, a block that was taken in or passed
/// over, leave a running actor running and sound, and its cursor where it
/// was or further on. Only a state that is stopped has the actor end.
pub proof fn lemma_only_a_stop_ends_ingestion(
    state: IngestionState,
    height: Option<u64>,
    poll_interval_secs: u64,
)
    requires
        sound(state),
    ensures
        sound(after_height(state, height)),
        sound(after_block(state)),
        state != IngestionState::Stopped ==> after_height(state, height) != IngestionState::Stopped
            && after_block(state) != IngestionState::Stopped,
        next_in(state, poll_interval_secs) == Next::Halt <==> state == IngestionState::Stopped,
        cursor_of(state) matches Some(cursor) ==> (cursor_of(after_height(state, height)) matches Some(
            next,
        ) && cursor <= next) && (cursor_of(after_block(state)) matches Some(next) && cursor <= next),
{
}

/// The ingestion actor.
#[derive(Debug)]
pub struct BlockStateActor {
    poll_interval_secs: u64,
    state: IngestionState,
    stop_requested: bool,
}

impl Actor for BlockStateActor {
    fn name(&self) -> (name: &'static str)
        ensures
            name@ == "BlockStateActor"@,
    {
        "BlockStateActor"
    }
}

impl BlockStateActor {
    #[verifier::type_invariant]
    spec fn is_sound(self) -> bool {
        sound(self.state)
    }

    /// Where the ingestion stands.
    pub closed spec fn state(self) -> IngestionState {
        self.state
    }

    /// The seconds to sleep between two readings of the ledger's height.
    pub closed spec fn poll_interval_secs(self) -> u64 {
        self.poll_interval_secs
    }

    /// Whether a stop was asked for.
    pub closed spec fn stop_requested(self) -> bool {
        self.stop_requested
    }

    /// An actor that has read no height yet.
    pub fn new(poll_interval_secs: u64) -> (actor: Self)
        ensures
            actor.state() == IngestionState::Uninitialized,
            actor.poll_interval_secs() == poll_interval_secs,
            !actor.stop_requested(),
    {
        BlockStateActor {
            poll_interval_secs,
            state: IngestionState::Uninitialized,
            stop_requested: false,
        }
    }

    /// Where the ingestion stands.
    pub fn current_state(&self) -> (state: IngestionState)
        ensures
            state == self.state(),
            sound(state),
    {
        proof {
            use_type_invariant(self);
        }
        self.state
    }

    /// Asks the actor to stop. It stops when it next stands at the top of a
    /// polling round; a block that is being fetched is finished first.
    pub fn request_stop(&mut self)
        ensures
            final(self).stop_requested(),
            final(self).state() == old(self).state(),
            final(self).poll_interval_secs() == old(self).poll_interval_secs(),
    {
        proof {
            use_type_invariant(&*self);
        }
        self.stop_requested = true;
    }

    /// The top of a polling round. The actor ends here, and only here, if a
    /// stop was asked for; else the height of the ledger is read, or the
    /// fetch in flight goes on.
    pub fn poll(&mut self) -> (next: Next)
        ensures
            final(self).poll_interval_secs() == old(self).poll_interval_secs(),
            final(self).stop_requested() == old(self).stop_requested(),
            match old(self).state() {
                IngestionState::Stopped => final(self).state() == old(self).state() && next
                    == Next::Halt,
                IngestionState::Fetching { cursor, remote } => final(self).state() == old(
                    self,
                ).state() && next == Next::Fetch((cursor + 1) as u64),
                _ => if old(self).stop_requested() {
                    final(self).state() == IngestionState::Stopped && next == Next::Halt
                } else {
                    final(self).state() == old(self).state() && next == Next::QueryHeight
                },
            },
    {
        proof {
            use_type_invariant(&*self);
        }
        match self.state {
            IngestionState::Stopped => Next::Halt,
            IngestionState::Fetching { cursor, remote } => Next::Fetch(cursor + 1),
            _ => {
                if self.stop_requested {
                    self.state = IngestionState::Stopped;
                    Next::Halt
                } else {
                    Next::QueryHeight
                }
            },
        }
    }

    /// Takes in the height of the ledger, or `None` where it could not be
    /// read. The first height read becomes the cursor: the actor starts from
    /// the present. Later, a height above the cursor starts the fetch of the
    /// block after the cursor; where the height could not be read, or shows no
    /// new block, the cursor stays and the actor waits.
    pub fn on_height(&mut self, height: Option<u64>) -> (next: Next)
        ensures
            final(self).poll_interval_secs() == old(self).poll_interval_secs(),
            final(self).stop_requested() == old(self).stop_requested(),
            final(self).state() == after_height(old(self).state(), height),
            next == next_in(final(self).state(), old(self).poll_interval_secs()),
    {
        proof {
            use_type_invariant(&*self);
        }
        match (self.state, height) {
            (IngestionState::Uninitialized, Some(h)) => {
                self.state = IngestionState::Polling { cursor: h };
                Next::Wait(self.poll_interval_secs)
            },
            (IngestionState::Polling { cursor }, Some(h)) => {
                if cursor < h {
                    self.state = IngestionState::Fetching { cursor, remote: h };
                    Next::Fetch(cursor + 1)
                } else {
                    Next::Wait(self.poll_interval_secs)
                }
            },
            (IngestionState::Fetching { cursor, remote }, _) => Next::Fetch(cursor + 1),
            (IngestionState::Stopped, _) => Next::Halt,
            _ => Next::Wait(self.poll_interval_secs),
        }
    }

    /// Takes in one block: applies its changes to the cache, moves the
    /// watermark as the policy allows, finds the registered pools that it
    /// touched, and makes the message to publish where there are any.
    pub fn process_block(
        market: &mut MarketState,
        block_number: u64,
        block_hash: B256,
        state_update: StateUpdateVec,
    ) -> (processed: ProcessedBlock)
        ensures
            final(market).db@ == apply_batch(old(market).db@, batch_model(state_update@)),
            final(market).pools == old(market).pools,
            final(market).policy == old(market).policy,
            (processed.advance, final(market).current_block) == advanced(
                old(market).current_block,
                old(market).policy,
                block_number,
            ),
            is_listing_of(
                processed.affected@,
                touched_by(batch_model(state_update@)).intersect(old(market).pools@.dom()),
            ),
            processed.message == (if processed.affected@.len() > 0 {
                Some(
                    Message::BlockStateUpdate(
                        BlockStateUpdate { block_number, block_hash, state_update },
                    ),
                )
            } else {
                None
            }),
    {
        market.apply_state_update_vec(&state_update);
        let advance = market.update_block(block_number);
        let affected = market.get_affected_pools_vec(&state_update);
        let message = if affected.len() > 0 {
            Some(Message::BlockStateUpdate(BlockStateUpdate::new(block_number, block_hash, state_update)))
        } else {
            None
        };
        ProcessedBlock { affected, message, advance }
    }

    /// Takes in what the fetch of the block after the cursor brought: the
    /// hash and the changes of the block, or `None` where they could not be
    /// fetched. Either way the cursor moves past the block, so that one block
    /// that cannot be fetched does not hold up those after it; a block passed
    /// over is reported. The next block is fetched while the ledger is ahead.
    /// Outside a fetch nothing is taken in and nothing changes.
    pub fn on_block(&mut self, market: &mut MarketState, fetched: Option<(B256, StateUpdateVec)>) -> (outcome:
        BlockOutcome)
        ensures
            final(self).poll_interval_secs() == old(self).poll_interval_secs(),
            final(self).stop_requested() == old(self).stop_requested(),
            final(self).state() == after_block(old(self).state()),
            final(market).pools == old(market).pools,
            final(market).policy == old(market).policy,
            match (old(self).state(), fetched) {
                (IngestionState::Fetching { cursor, remote }, Some((block_hash, state_update))) => {
                    &&& outcome.next == next_in(
                        final(self).state(),
                        old(self).poll_interval_secs(),
                    )
                    &&& outcome.skipped is None
                    &&& outcome.processed matches Some(processed)
                    &&& final(market).db@ == apply_batch(
                        old(market).db@,
                        batch_model(state_update@),
                    )
                    &&& (processed.advance, final(market).current_block) == advanced(
                        old(market).current_block,
                        old(market).policy,
                        (cursor + 1) as u64,
                    )
                    &&& is_listing_of(
                        processed.affected@,
                        touched_by(batch_model(state_update@)).intersect(old(market).pools@.dom()),
                    )
                    &&& processed.message == (if processed.affected@.len() > 0 {
                        Some(
                            Message::BlockStateUpdate(
                                BlockStateUpdate {
                                    block_number: (cursor + 1) as u64,
                                    block_hash,
                                    state_update,
                                },
                            ),
                        )
                    } else {
                        None
                    })
                },
                (IngestionState::Fetching { cursor, remote }, None) => {
                    &&& outcome.next == next_in(
                        final(self).state(),
                        old(self).poll_interval_secs(),
                    )
                    &&& outcome.skipped == Some((cursor + 1) as u64)
                    &&& outcome.processed is None
                    &&& *final(market) == *old(market)
                },
                (state, _) => {
                    &&& outcome.next == (if state == IngestionState::Stopped {
                        Next::Halt
                    } else {
                        Next::QueryHeight
                    })
                    &&& outcome.skipped is None
                    &&& outcome.processed is None
                    &&& *final(market) == *old(market)
                },
            },
    {
        proof {
            use_type_invariant(&*self);
        }
        match self.state {
            IngestionState::Fetching { cursor, remote } => {
                let block: u64 = cursor + 1;
                let (processed, skipped) = match fetched {
                    Some((block_hash, state_update)) => (
                        Some(Self::process_block(market, block, block_hash, state_update)),
                        None,
                    ),
                    None => (None, Some(block)),
                };
                let next = if block < remote {
                    self.state = IngestionState::Fetching { cursor: block, remote };
                    Next::Fetch(block + 1)
                } else {
                    self.state = IngestionState::Polling { cursor: block };
                    Next::Wait(self.poll_interval_secs)
                };
                BlockOutcome { processed, skipped, next }
            },
            IngestionState::Stopped => BlockOutcome {
                processed: None,
                skipped: None,
                next: Next::Halt,
            },
            _ => BlockOutcome { processed: None, skipped: None, next: Next::QueryHeight },
        }
    }
}

} // verus!
