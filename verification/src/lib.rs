//! A local replica of tracked pool contracts: the storage cache, the diffs
//! that keep it current, the registry of pools, and the decisions of the
//! actors that feed and read them.

pub mod actors;
pub mod bus;
pub mod byte_order;
pub mod market_state;
pub mod messages;
pub mod ordered_map;
pub mod pool_loader_trait;
pub mod pool_loaders;
pub mod primitives;
pub mod sequences;
pub mod sorting;
pub mod state_update;
pub mod types;
pub mod uniswap_v2_loader;
pub mod uniswap_v3_loader;
