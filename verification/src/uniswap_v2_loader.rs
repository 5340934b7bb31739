//! The loader of constant-product pools: it recognises their events, names
//! their protocol by the factory, and reads both reserves out of one storage
//! word.

use vstd::prelude::*;
use vstd::arithmetic::div_mod::lemma_fundamental_div_mod_converse;
use vstd::arithmetic::power2::{lemma2_to64, lemma2_to64_rest, lemma_pow2_adds, pow2};
use crate::pool_loader_trait::{classified, classify_log, PoolLoader};
use crate::primitives::{keccak256_digest, keccak256_text, uint_bitand, uint_shr, Address, B256, U256};
use crate::types::{Log, PoolClass, PoolData, PoolId, PoolProtocol, UniswapV2PoolData};

verus! {

/// The address of the Uniswap V2 factory.
pub open spec fn uniswap_v2_factory() -> Seq<u8> {
    seq![
        0x5Cu8, 0x69, 0xbE, 0xe7, 0x01, 0xef, 0x81, 0x4a, 0x2B, 0x6a,
        0x3E, 0xDD, 0x4B, 0x16, 0x52, 0xCB, 0x9c, 0xc5, 0xaA, 0x6f,
    ]
}

/// The address of the Sushiswap factory.
pub open spec fn sushiswap_factory() -> Seq<u8> {
    seq![
        0xC0u8, 0xAE, 0xe4, 0x78, 0xe3, 0x65, 0x8e, 0x26, 0x10, 0xc5,
        0xF7, 0xA4, 0xA2, 0xE1, 0x77, 0x7c, 0xE9, 0xe4, 0xf2, 0xAc,
    ]
}

/// The protocol of a constant-product pool, by the factory that deployed it.
pub open spec fn v2_protocol(factory: Address) -> PoolProtocol {
    if factory.0@ == uniswap_v2_factory() {
        PoolProtocol::UniswapV2
    } else if factory.0@ == sushiswap_factory() {
        PoolProtocol::Sushiswap
    } else {
        PoolProtocol::UniswapV2Like
    }
}

/// Two to the power 112: one more than the largest reserve.
pub open spec fn reserve_modulus() -> nat {
    0x1_0000_0000_0000_0000_0000_0000_0000
}

/// The fee of every constant-product protocol, in the unit in which 10000 is
/// the whole amount.
pub open spec fn v2_fee() -> U256 {
    U256 { l0: 9970, l1: 0, l2: 0, l3: 0 }
}

/// The storage slot in which a constant-product pool keeps its reserves.
pub open spec fn reserves_slot() -> U256 {
    U256 { l0: 8, l1: 0, l2: 0, l3: 0 }
}

/// The four events that only a constant-product pool emits, by the hash of
/// their signatures.
pub open spec fn v2_event_hashes() -> Seq<Seq<u8>> {
    seq![
        keccak256_digest("Swap(address,uint256,uint256,uint256,uint256,address)"@),
        keccak256_digest("Sync(uint112,uint112)"@),
        keccak256_digest("Mint(address,uint256,uint256)"@),
        keccak256_digest("Burn(address,uint256,uint256,address)"@),
    ]
}

/// Keeping the low 112 bits of an integer, limb by limb, leaves its value
/// modulo two to the power 112.
pub proof fn lemma_low_112_bits(x: U256, low: U256)
    requires
        low.l0 == x.l0 & 0xFFFF_FFFF_FFFF_FFFFu64,
        low.l1 == x.l1 & 0xFFFF_FFFF_FFFFu64,
        low.l2 == x.l2 & 0u64,
        low.l3 == x.l3 & 0u64,
    ensures
        low.value() == x.value() % reserve_modulus(),
{
    let (a, b, c, d) = (x.l0, x.l1, x.l2, x.l3);
    assert(a & 0xFFFF_FFFF_FFFF_FFFFu64 == a) by (bit_vector);
    assert(b & 0xFFFF_FFFF_FFFFu64 == b % 0x1_0000_0000_0000u64) by (bit_vector);
    assert(c & 0u64 == 0) by (bit_vector);
    assert(d & 0u64 == 0) by (bit_vector);
    let high: int = b as int / 0x1_0000_0000_0000;
    let rest: int = b as int % 0x1_0000_0000_0000;
    let q: int = high + c as int * 0x1_0000 + d as int * 0x1_0000_0000_0000_0000_0000;
    let r: int = a as int + rest * 0x1_0000_0000_0000_0000;
    let m: int = reserve_modulus() as int;
    assert(x.value() as int == q * m + r);
    lemma_fundamental_div_mod_converse(x.value() as int, m, q, r);
}

/// The loader of constant-product pools.
pub struct UniswapV2Loader {
    hashes: [B256; 4],
}

impl UniswapV2Loader {
    #[verifier::type_invariant]
    spec fn knows_its_events(self) -> bool {
        forall|i: int| 0 <= i < 4 ==> (#[trigger] self.hashes@[i]).0@ == v2_event_hashes()[i]
    }

    /// The event hashes that the loader compares first topics with.
    pub closed spec fn hashes(self) -> Seq<B256> {
        self.hashes@
    }

    /// A loader that knows the four events of its class.
    pub fn new() -> (loader: Self)
        ensures
            forall|i: int| 0 <= i < 4 ==> (#[trigger] loader.hashes()[i]).0@ == v2_event_hashes()[i],
    {
        let hashes: [B256; 4] = [
            keccak256_text("Swap(address,uint256,uint256,uint256,uint256,address)"),
            keccak256_text("Sync(uint112,uint112)"),
            keccak256_text("Mint(address,uint256,uint256)"),
            keccak256_text("Burn(address,uint256,uint256,address)"),
        ];
        UniswapV2Loader { hashes }
    }

    /// The protocol of a pool, by the factory that deployed it.
    pub fn get_protocol_by_factory(factory: Address) -> (protocol: PoolProtocol)
        ensures
            protocol == v2_protocol(factory),
    {
        let uniswap = Address(
            [
                0x5C, 0x69, 0xbE, 0xe7, 0x01, 0xef, 0x81, 0x4a, 0x2B, 0x6a,
                0x3E, 0xDD, 0x4B, 0x16, 0x52, 0xCB, 0x9c, 0xc5, 0xaA, 0x6f,
            ],
        );
        let sushiswap = Address(
            [
                0xC0, 0xAE, 0xe4, 0x78, 0xe3, 0x65, 0x8e, 0x26, 0x10, 0xc5,
                0xF7, 0xA4, 0xA2, 0xE1, 0x77, 0x7c, 0xE9, 0xe4, 0xf2, 0xAc,
            ],
        );
        proof {
            assert(uniswap.0@ =~= uniswap_v2_factory());
            assert(sushiswap.0@ =~= sushiswap_factory());
        }
        if factory.same(&uniswap) {
            PoolProtocol::UniswapV2
        } else if factory.same(&sushiswap) {
            PoolProtocol::Sushiswap
        } else {
            PoolProtocol::UniswapV2Like
        }
    }

    /// The fee of a protocol: 9970 for each of them.
    pub fn get_fee_by_protocol(protocol: PoolProtocol) -> (fee: U256)
        ensures
            fee == v2_fee(),
    {
        U256::from(9970u64)
    }

    /// The two reserves that a storage word holds: the first in its low 112
    /// bits, the second in the 112 bits above them.
    pub fn storage_to_reserves(value: U256) -> (reserves: (U256, U256))
        ensures
            reserves.0.value() == value.value() % reserve_modulus(),
            reserves.1.value() == (value.value() / reserve_modulus()) % reserve_modulus(),
    {
        let mask = U256 { l0: 0xFFFF_FFFF_FFFF_FFFF, l1: 0xFFFF_FFFF_FFFF, l2: 0, l3: 0 };
        let low = uint_shr(value, 0);
        let high = uint_shr(value, 112);
        let reserve0 = uint_bitand(low, mask);
        let reserve1 = uint_bitand(high, mask);
        proof {
            lemma2_to64();
            lemma2_to64_rest();
            lemma_pow2_adds(64, 48);
            assert(pow2(112) == reserve_modulus());
            U256::lemma_value_injective(low, value);
            lemma_low_112_bits(low, reserve0);
            lemma_low_112_bits(high, reserve1);
        }
        (reserve0, reserve1)
    }

    /// The descriptor of a pool from what was read of its contract: the
    /// tokens, the factory, the reserves that the contract reports, and the
    /// word in the storage slot where this class keeps them. The slot is
    /// recorded only where the word holds the reported reserves.
    pub fn pool_data_from_reads(
        address: Address,
        token0: Address,
        token1: Address,
        factory: Address,
        reserve0: U256,
        reserve1: U256,
        storage_value: U256,
    ) -> (pool: PoolData)
        ensures
            pool == PoolData::UniswapV2(
                UniswapV2PoolData {
                    address,
                    token0,
                    token1,
                    factory,
                    protocol: v2_protocol(factory),
                    fee: v2_fee(),
                    reserve0,
                    reserve1,
                    reserves_slot: if storage_value.value() % reserve_modulus() == reserve0.value()
                        && (storage_value.value() / reserve_modulus()) % reserve_modulus()
                        == reserve1.value() {
                        Some(reserves_slot())
                    } else {
                        None
                    },
                },
            ),
    {
        let stored = Self::storage_to_reserves(storage_value);
        proof {
            if stored.0.value() == reserve0.value() {
                U256::lemma_value_injective(stored.0, reserve0);
            }
            if stored.1.value() == reserve1.value() {
                U256::lemma_value_injective(stored.1, reserve1);
            }
        }
        let slot = if stored.0 == reserve0 && stored.1 == reserve1 {
            Some(U256::from(8u64))
        } else {
            None
        };
        let protocol = Self::get_protocol_by_factory(factory);
        let fee = Self::get_fee_by_protocol(protocol);
        PoolData::UniswapV2(
            UniswapV2PoolData {
                address,
                token0,
                token1,
                factory,
                protocol,
                fee,
                reserve0,
                reserve1,
                reserves_slot: slot,
            },
        )
    }
}

impl PoolLoader for UniswapV2Loader {
    open spec fn recognised(&self, log: &Log) -> Option<(PoolId, PoolClass)> {
        classified(log, self.hashes(), PoolClass::UniswapV2)
    }

    fn identify_pool_from_log(&self, log: &Log) -> (found: Option<(PoolId, PoolClass)>) {
        classify_log(log, &self.hashes, PoolClass::UniswapV2)
    }
}

} // verus!
