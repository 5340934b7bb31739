//! Pools: their identities, classes and decoded descriptors.

use vstd::prelude::*;
use crate::ordered_map::Key;
use crate::primitives::{Address, B256, U256};

verus! {

/// The identity of a pool: the address of its contract.
#[derive(Debug, Clone, Copy, PartialEq, Eq, Hash)]
pub struct PoolId(pub Address);

impl PoolId {
    /// The address of the pool's contract.
    pub fn address(&self) -> (a: Address)
        ensures
            a == self.0,
    {
        self.0
    }
}

impl Key for PoolId {
    open spec fn rank(self) -> nat {
        self.0.rank()
    }

    proof fn lemma_rank_injective(a: Self, b: Self) {
        Address::lemma_rank_injective(a.0, b.0);
    }

    fn precedes(&self, other: &Self) -> (r: bool) {
        self.0.precedes(&other.0)
    }
}

/// The families of pools that the library knows how to recognise.
#[derive(Debug, Clone, Copy, PartialEq, Eq, Hash, Structural)]
pub enum PoolClass {
    UniswapV2,
    UniswapV3,
    Curve,
    Maverick,
}

/// The protocol that deployed a pool, within its class.
#[derive(Debug, Clone, Copy, PartialEq, Eq, Structural)]
pub enum PoolProtocol {
    UniswapV2,
    Sushiswap,
    UniswapV2Like,
    UniswapV3,
    SushiswapV3,
    PancakeV3,
    UniswapV3Like,
    Curve,
    Maverick,
}

/// A constant-product pool of two tokens.
#[derive(Debug, Clone, Copy)]
pub struct UniswapV2PoolData {
    pub address: Address,
    pub token0: Address,
    pub token1: Address,
    pub factory: Address,
    pub protocol: PoolProtocol,
    pub fee: U256,
    pub reserve0: U256,
    pub reserve1: U256,
    /// The storage slot that holds both reserves, where it was confirmed.
    pub reserves_slot: Option<U256>,
}

/// A concentrated-liquidity pool of two tokens.
#[derive(Debug, Clone, Copy)]
pub struct UniswapV3PoolData {
    pub address: Address,
    pub token0: Address,
    pub token1: Address,
    pub factory: Address,
    pub protocol: PoolProtocol,
    pub fee: u32,
    pub liquidity: u128,
    pub sqrt_price_x96: U256,
    pub tick: i32,
}

/// The descriptor of a pool of either class.
#[derive(Debug, Clone, Copy)]
pub enum PoolData {
    UniswapV2(UniswapV2PoolData),
    UniswapV3(UniswapV3PoolData),
}

impl PoolData {
    /// The address of the pool's contract.
    pub open spec fn spec_address(&self) -> Address {
        match *self {
            PoolData::UniswapV2(pool) => pool.address,
            PoolData::UniswapV3(pool) => pool.address,
        }
    }

    /// The class that the descriptor belongs to.
    pub open spec fn spec_pool_class(&self) -> PoolClass {
        match *self {
            PoolData::UniswapV2(_) => PoolClass::UniswapV2,
            PoolData::UniswapV3(_) => PoolClass::UniswapV3,
        }
    }

    /// The address of the pool's contract.
    #[verifier::when_used_as_spec(spec_address)]
    pub fn address(&self) -> (a: Address)
        ensures
            a == self.spec_address(),
    {
        match self {
            PoolData::UniswapV2(pool) => pool.address,
            PoolData::UniswapV3(pool) => pool.address,
        }
    }

    /// The class that the descriptor belongs to.
    #[verifier::when_used_as_spec(spec_pool_class)]
    pub fn pool_class(&self) -> (c: PoolClass)
        ensures
            c == self.spec_pool_class(),
    {
        match self {
            PoolData::UniswapV2(_) => PoolClass::UniswapV2,
            PoolData::UniswapV3(_) => PoolClass::UniswapV3,
        }
    }

    /// The two tokens that the pool trades, in the pool's own order.
    pub fn tokens(&self) -> (pair: (Address, Address))
        ensures
            pair == (match *self {
                PoolData::UniswapV2(pool) => (pool.token0, pool.token1),
                PoolData::UniswapV3(pool) => (pool.token0, pool.token1),
            }),
    {
        match self {
            PoolData::UniswapV2(pool) => (pool.token0, pool.token1),
            PoolData::UniswapV3(pool) => (pool.token0, pool.token1),
        }
    }
}

/// How the discovery scan and the loading of pools are run.
#[derive(Debug, Clone, Copy)]
pub struct LoaderConfig {
    /// The largest number of pools that are fetched at one time.
    pub max_concurrent_tasks: usize,
    /// The block at which the scan starts; zero stands for the newest block.
    pub start_block: u64,
    /// The number of blocks that one batch of the scan covers.
    pub block_batch_size: u64,
    /// The number of batches that the scan may take.
    pub num_batches: usize,
}

impl Default for LoaderConfig {
    fn default() -> (config: Self)
        ensures
            config.max_concurrent_tasks == 20,
            config.start_block == 0,
            config.block_batch_size == 5,
            config.num_batches == 10000,
    {
        LoaderConfig {
            max_concurrent_tasks: 20,
            start_block: 0,
            block_batch_size: 5,
            num_batches: 10000,
        }
    }
}

/// What the library reads of an event log: the contract that emitted it and
/// its topics, the first of which names the event.
#[derive(Debug, Clone)]
pub struct Log {
    /// The address of the emitting contract.
    pub address: Address,
    /// The topics of the event, in order.
    pub topics: Vec<B256>,
}

impl Log {
    /// The address of the emitting contract.
    pub fn address(&self) -> (a: Address)
        ensures
            a == self.address,
    {
        self.address
    }

    /// The topics of the event, in order.
    pub fn topics(&self) -> (topics: &Vec<B256>)
        ensures
            topics == self.topics,
    {
        &self.topics
    }
}

} // verus!
