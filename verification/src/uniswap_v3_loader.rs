//! The loader of concentrated-liquidity pools: it recognises their events
//! and names their protocol by the factory.

use vstd::prelude::*;
use crate::pool_loader_trait::{classified, classify_log, PoolLoader};
use crate::primitives::{keccak256_digest, keccak256_text, Address, B256, U256};
use crate::types::{Log, PoolClass, PoolData, PoolId, PoolProtocol, UniswapV3PoolData};

verus! {

/// The address of the Uniswap V3 factory.
pub open spec fn uniswap_v3_factory() -> Seq<u8> {
    seq![
        0x1Fu8, 0x98, 0x43, 0x1c, 0x8a, 0xD9, 0x85, 0x23, 0x63, 0x1A,
        0xE4, 0xa5, 0x9f, 0x26, 0x73, 0x46, 0xea, 0x31, 0xF9, 0x84,
    ]
}

/// The address of the Sushiswap V3 factory.
pub open spec fn sushiswap_v3_factory() -> Seq<u8> {
    seq![
        0xbAu8, 0xCE, 0xB8, 0xeC, 0x6b, 0x93, 0x55, 0xDf, 0xc0, 0x26,
        0x9C, 0x18, 0xba, 0xc9, 0xd6, 0xE2, 0xBd, 0xc2, 0x9C, 0x4F,
    ]
}

/// The address of the Pancake V3 factory.
pub open spec fn pancake_v3_factory() -> Seq<u8> {
    seq![
        0x0Bu8, 0xFb, 0xCF, 0x9f, 0xa4, 0xf9, 0xC5, 0x6B, 0x0F, 0x40,
        0xa6, 0x71, 0xAd, 0x40, 0xE0, 0x80, 0x5A, 0x09, 0x18, 0x65,
    ]
}

/// The protocol of a concentrated-liquidity pool, by the factory that
/// deployed it.
pub open spec fn v3_protocol(factory: Address) -> PoolProtocol {
    if factory.0@ == uniswap_v3_factory() {
        PoolProtocol::UniswapV3
    } else if factory.0@ == sushiswap_v3_factory() {
        PoolProtocol::SushiswapV3
    } else if factory.0@ == pancake_v3_factory() {
        PoolProtocol::PancakeV3
    } else {
        PoolProtocol::UniswapV3Like
    }
}

/// The four events that only a concentrated-liquidity pool emits, by the
/// hash of their signatures.
pub open spec fn v3_event_hashes() -> Seq<Seq<u8>> {
    seq![
        keccak256_digest("Swap(address,address,int256,int256,uint160,uint128,int24)"@),
        keccak256_digest("Mint(address,address,int24,int24,uint128,uint256,uint256)"@),
        keccak256_digest("Burn(address,int24,int24,uint128,uint256,uint256)"@),
        keccak256_digest("Initialize(uint160,int24)"@),
    ]
}

/// The loader of concentrated-liquidity pools.
pub struct UniswapV3Loader {
    hashes: [B256; 4],
}

impl UniswapV3Loader {
    #[verifier::type_invariant]
    spec fn knows_its_events(self) -> bool {
        forall|i: int| 0 <= i < 4 ==> (#[trigger] self.hashes@[i]).0@ == v3_event_hashes()[i]
    }

    /// The event hashes that the loader compares first topics with.
    pub closed spec fn hashes(self) -> Seq<B256> {
        self.hashes@
    }

    /// A loader that knows the four events of its class.
    pub fn new() -> (loader: Self)
        ensures
            forall|i: int| 0 <= i < 4 ==> (#[trigger] loader.hashes()[i]).0@ == v3_event_hashes()[i],
    {
        let hashes: [B256; 4] = [
            keccak256_text("Swap(address,address,int256,int256,uint160,uint128,int24)"),
            keccak256_text("Mint(address,address,int24,int24,uint128,uint256,uint256)"),
            keccak256_text("Burn(address,int24,int24,uint128,uint256,uint256)"),
            keccak256_text("Initialize(uint160,int24)"),
        ];
        UniswapV3Loader { hashes }
    }

    /// The protocol of a pool, by the factory that deployed it.
    pub fn get_protocol_by_factory(factory: Address) -> (protocol: PoolProtocol)
        ensures
            protocol == v3_protocol(factory),
    {
        let uniswap = Address(
            [
                0x1F, 0x98, 0x43, 0x1c, 0x8a, 0xD9, 0x85, 0x23, 0x63, 0x1A,
                0xE4, 0xa5, 0x9f, 0x26, 0x73, 0x46, 0xea, 0x31, 0xF9, 0x84,
            ],
        );
        let sushiswap = Address(
            [
                0xbA, 0xCE, 0xB8, 0xeC, 0x6b, 0x93, 0x55, 0xDf, 0xc0, 0x26,
                0x9C, 0x18, 0xba, 0xc9, 0xd6, 0xE2, 0xBd, 0xc2, 0x9C, 0x4F,
            ],
        );
        let pancake = Address(
            [
                0x0B, 0xFb, 0xCF, 0x9f, 0xa4, 0xf9, 0xC5, 0x6B, 0x0F, 0x40,
                0xa6, 0x71, 0xAd, 0x40, 0xE0, 0x80, 0x5A, 0x09, 0x18, 0x65,
            ],
        );
        proof {
            assert(uniswap.0@ =~= uniswap_v3_factory());
            assert(sushiswap.0@ =~= sushiswap_v3_factory());
            assert(pancake.0@ =~= pancake_v3_factory());
        }
        if factory.same(&uniswap) {
            PoolProtocol::UniswapV3
        } else if factory.same(&sushiswap) {
            PoolProtocol::SushiswapV3
        } else if factory.same(&pancake) {
            PoolProtocol::PancakeV3
        } else {
            PoolProtocol::UniswapV3Like
        }
    }

    /// The descriptor of a pool from what was read of its contract.
    pub fn pool_data_from_reads(
        address: Address,
        token0: Address,
        token1: Address,
        factory: Address,
        fee: u32,
        liquidity: u128,
        sqrt_price_x96: U256,
        tick: i32,
    ) -> (pool: PoolData)
        ensures
            pool == PoolData::UniswapV3(
                UniswapV3PoolData {
                    address,
                    token0,
                    token1,
                    factory,
                    protocol: v3_protocol(factory),
                    fee,
                    liquidity,
                    sqrt_price_x96,
                    tick,
                },
            ),
    {
        let protocol = Self::get_protocol_by_factory(factory);
        PoolData::UniswapV3(
            UniswapV3PoolData {
                address,
                token0,
                token1,
                factory,
                protocol,
                fee,
                liquidity,
                sqrt_price_x96,
                tick,
            },
        )
    }
}

impl PoolLoader for UniswapV3Loader {
    open spec fn recognised(&self, log: &Log) -> Option<(PoolId, PoolClass)> {
        classified(log, self.hashes(), PoolClass::UniswapV3)
    }

    fn identify_pool_from_log(&self, log: &Log) -> (found: Option<(PoolId, PoolClass)>) {
        classify_log(log, &self.hashes, PoolClass::UniswapV3)
    }
}

} // verus!
