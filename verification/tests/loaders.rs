use pool_loader::pool_loader_trait::{classify_log, PoolLoader};
use pool_loader::pool_loaders::{Loader, PoolLoaders};
use pool_loader::primitives::{Address, B256, U256};
use pool_loader::types::{
    LoaderConfig, Log, PoolClass, PoolData, PoolId, PoolProtocol,
};
use pool_loader::uniswap_v2_loader::UniswapV2Loader;
use pool_loader::uniswap_v3_loader::UniswapV3Loader;

fn word(value: alloy::primitives::U256) -> U256 {
    U256::from_limbs(value.into_limbs())
}

fn address(text: &str) -> Address {
    Address(text.parse::<alloy::primitives::Address>().unwrap().0 .0)
}

fn topic(signature: &str) -> B256 {
    B256(alloy::primitives::keccak256(signature.as_bytes()).0)
}

fn log(address: Address, topics: Vec<B256>) -> Log {
    Log { address, topics }
}

#[test]
fn test_storage_to_reserves() {
    let value = alloy::primitives::U256::from(100u64) | (alloy::primitives::U256::from(200u64) << 112);
    let (r0, r1) = UniswapV2Loader::storage_to_reserves(word(value));
    assert_eq!(r0, U256::from(100u64));
    assert_eq!(r1, U256::from(200u64));
}

#[test]
fn reserves_ignore_the_bits_above_them() {
    let all = U256::from_limbs([u64::MAX; 4]);
    let (r0, r1) = UniswapV2Loader::storage_to_reserves(all);
    let largest = U256::from_limbs([u64::MAX, 0xFFFF_FFFF_FFFF, 0, 0]);
    assert_eq!(r0, largest);
    assert_eq!(r1, largest);

    let one = alloy::primitives::U256::from(1u64);
    let value = (one << 111) | (one << 112) | (one << 224);
    let (r0, r1) = UniswapV2Loader::storage_to_reserves(word(value));
    assert_eq!(r0, word(one << 111));
    assert_eq!(r1, U256::from(1u64));
    assert_eq!(UniswapV2Loader::storage_to_reserves(U256::zero()), (U256::zero(), U256::zero()));
}

#[test]
fn v2_protocol_and_fee_follow_the_factory() {
    let uniswap = address("0x5C69bEe701ef814a2B6a3EDD4B1652CB9cc5aA6f");
    let sushiswap = address("0xC0AEe478e3658e2610c5F7A4A2E1777cE9e4f2Ac");
    assert_eq!(UniswapV2Loader::get_protocol_by_factory(uniswap), PoolProtocol::UniswapV2);
    assert_eq!(UniswapV2Loader::get_protocol_by_factory(sushiswap), PoolProtocol::Sushiswap);
    assert_eq!(
        UniswapV2Loader::get_protocol_by_factory(Address::repeat_byte(4)),
        PoolProtocol::UniswapV2Like
    );
    for protocol in [PoolProtocol::UniswapV2, PoolProtocol::Sushiswap, PoolProtocol::UniswapV2Like] {
        assert_eq!(UniswapV2Loader::get_fee_by_protocol(protocol), U256::from(9970u64));
    }
}

#[test]
fn v3_protocol_follows_the_factory() {
    let cases = [
        ("0x1F98431c8aD98523631AE4a59f267346ea31F984", PoolProtocol::UniswapV3),
        ("0xbACEB8eC6b9355Dfc0269C18bac9d6E2Bdc29C4F", PoolProtocol::SushiswapV3),
        ("0x0BFbCF9fa4f9C56B0F40a671Ad40E0805A091865", PoolProtocol::PancakeV3),
        ("0x5C69bEe701ef814a2B6a3EDD4B1652CB9cc5aA6f", PoolProtocol::UniswapV3Like),
    ];
    for (factory, protocol) in cases {
        assert_eq!(UniswapV3Loader::get_protocol_by_factory(address(factory)), protocol);
    }
}

#[test]
fn v2_pool_data_records_the_slot_only_when_it_holds_the_reserves() {
    let pool = Address::repeat_byte(1);
    let factory = address("0xC0AEe478e3658e2610c5F7A4A2E1777cE9e4f2Ac");
    let stored = word(
        alloy::primitives::U256::from(100u64)
            | (alloy::primitives::U256::from(200u64) << 112)
            | (alloy::primitives::U256::from(0x6543_2100u64) << 224),
    );
    let built = UniswapV2Loader::pool_data_from_reads(
        pool,
        Address::repeat_byte(2),
        Address::repeat_byte(3),
        factory,
        U256::from(100u64),
        U256::from(200u64),
        stored,
    );
    match built {
        PoolData::UniswapV2(data) => {
            assert_eq!(data.address, pool);
            assert_eq!(data.token0, Address::repeat_byte(2));
            assert_eq!(data.token1, Address::repeat_byte(3));
            assert_eq!(data.factory, factory);
            assert_eq!(data.protocol, PoolProtocol::Sushiswap);
            assert_eq!(data.fee, U256::from(9970u64));
            assert_eq!(data.reserve0, U256::from(100u64));
            assert_eq!(data.reserve1, U256::from(200u64));
            assert_eq!(data.reserves_slot, Some(U256::from(8u64)));
        }
        PoolData::UniswapV3(_) => panic!("a constant-product pool was expected"),
    }
    assert_eq!(built.pool_class(), PoolClass::UniswapV2);
    assert_eq!(built.tokens(), (Address::repeat_byte(2), Address::repeat_byte(3)));

    let other = UniswapV2Loader::pool_data_from_reads(
        pool,
        Address::repeat_byte(2),
        Address::repeat_byte(3),
        factory,
        U256::from(100u64),
        U256::from(201u64),
        stored,
    );
    match other {
        PoolData::UniswapV2(data) => assert_eq!(data.reserves_slot, None),
        PoolData::UniswapV3(_) => panic!("a constant-product pool was expected"),
    }
}

#[test]
fn v3_pool_data_keeps_what_was_read() {
    let built = UniswapV3Loader::pool_data_from_reads(
        Address::repeat_byte(1),
        Address::repeat_byte(2),
        Address::repeat_byte(3),
        address("0x1F98431c8aD98523631AE4a59f267346ea31F984"),
        3000,
        77,
        U256::from(5u64),
        -12,
    );
    match built {
        PoolData::UniswapV3(data) => {
            assert_eq!(data.protocol, PoolProtocol::UniswapV3);
            assert_eq!((data.fee, data.liquidity, data.tick), (3000, 77, -12));
            assert_eq!(data.sqrt_price_x96, U256::from(5u64));
        }
        PoolData::UniswapV2(_) => panic!("a concentrated-liquidity pool was expected"),
    }
    assert_eq!(built.address(), Address::repeat_byte(1));
    assert_eq!(built.pool_class(), PoolClass::UniswapV3);
}

#[test]
fn v2_loader_knows_the_events_of_its_class() {
    let loader = UniswapV2Loader::new();
    let pool = Address::repeat_byte(0x11);
    let swap: [u8; 32] = [
        0xd7, 0x8a, 0xd9, 0x5f, 0xa4, 0x6c, 0x99, 0x4b, 0x65, 0x51, 0xd0, 0xda, 0x85, 0xfc, 0x27,
        0x5f, 0xe6, 0x13, 0xce, 0x37, 0x65, 0x7f, 0xb8, 0xd5, 0xe3, 0xd1, 0x30, 0x84, 0x01, 0x59,
        0xd8, 0x22,
    ];
    assert_eq!(
        loader.identify_pool_from_log(&log(pool, vec![B256(swap), B256::zero()])),
        Some((PoolId(pool), PoolClass::UniswapV2))
    );
    for signature in [
        "Swap(address,uint256,uint256,uint256,uint256,address)",
        "Sync(uint112,uint112)",
        "Mint(address,uint256,uint256)",
        "Burn(address,uint256,uint256,address)",
    ] {
        assert_eq!(
            loader.identify_pool_from_log(&log(pool, vec![topic(signature)])),
            Some((PoolId(pool), PoolClass::UniswapV2))
        );
    }
    assert_eq!(loader.identify_pool_from_log(&log(pool, vec![])), None);
    assert_eq!(loader.identify_pool_from_log(&log(pool, vec![B256::zero()])), None);
    assert_eq!(
        loader.identify_pool_from_log(&log(pool, vec![B256::zero(), B256(swap)])),
        None
    );
    assert_eq!(
        loader.identify_pool_from_log(&log(pool, vec![topic("Initialize(uint160,int24)")])),
        None
    );
}

#[test]
fn v3_loader_knows_the_events_of_its_class() {
    let loader = UniswapV3Loader::new();
    let pool = Address::repeat_byte(0x33);
    let swap: [u8; 32] = [
        0xc4, 0x20, 0x79, 0xf9, 0x4a, 0x63, 0x50, 0xd7, 0xe6, 0x23, 0x5f, 0x29, 0x17, 0x49, 0x24,
        0xf9, 0x28, 0xcc, 0x2a, 0xc8, 0x18, 0xeb, 0x64, 0xfe, 0xd8, 0x00, 0x4e, 0x11, 0x5f, 0xbc,
        0xca, 0x67,
    ];
    assert_eq!(
        loader.identify_pool_from_log(&log(pool, vec![B256(swap)])),
        Some((PoolId(pool), PoolClass::UniswapV3))
    );
    for signature in [
        "Swap(address,address,int256,int256,uint160,uint128,int24)",
        "Mint(address,address,int24,int24,uint128,uint256,uint256)",
        "Burn(address,int24,int24,uint128,uint256,uint256)",
        "Initialize(uint160,int24)",
    ] {
        assert_eq!(
            loader.identify_pool_from_log(&log(pool, vec![topic(signature)])),
            Some((PoolId(pool), PoolClass::UniswapV3))
        );
    }
    assert_eq!(loader.identify_pool_from_log(&log(pool, vec![])), None);
    assert_eq!(
        loader.identify_pool_from_log(&log(pool, vec![topic("Sync(uint112,uint112)")])),
        None
    );
}

#[test]
fn a_log_is_classified_by_its_first_topic() {
    let hashes = [
        B256::repeat_byte(1),
        B256::repeat_byte(2),
        B256::repeat_byte(3),
        B256::repeat_byte(4),
    ];
    let pool = Address::repeat_byte(9);
    for known in hashes {
        assert_eq!(
            classify_log(&log(pool, vec![known]), &hashes, PoolClass::Curve),
            Some((PoolId(pool), PoolClass::Curve))
        );
    }
    assert_eq!(classify_log(&log(pool, vec![B256::repeat_byte(5)]), &hashes, PoolClass::Curve), None);
    assert_eq!(
        classify_log(&log(pool, vec![B256::repeat_byte(5), hashes[0]]), &hashes, PoolClass::Curve),
        None
    );
    assert_eq!(classify_log(&log(pool, vec![]), &hashes, PoolClass::Curve), None);
}

#[test]
fn registry_asks_its_loaders_in_order() {
    let empty = PoolLoaders::new();
    let pool = Address::repeat_byte(7);
    let sync = log(pool, vec![topic("Sync(uint112,uint112)")]);
    let initialize = log(pool, vec![topic("Initialize(uint160,int24)")]);
    assert_eq!(empty.identify_pool_from_log(&sync), None);
    assert!(empty.supported_pool_classes().is_empty());
    assert!(empty.get_loader(&PoolClass::UniswapV2).is_none());

    let registry = PoolLoaders::new()
        .add_loader(PoolClass::UniswapV2, Loader::UniswapV2(UniswapV2Loader::new()))
        .add_loader(PoolClass::UniswapV3, Loader::UniswapV3(UniswapV3Loader::new()));
    assert_eq!(
        registry.supported_pool_classes(),
        vec![PoolClass::UniswapV2, PoolClass::UniswapV3]
    );
    assert_eq!(registry.identify_pool_from_log(&sync), Some((PoolId(pool), PoolClass::UniswapV2)));
    assert_eq!(
        registry.identify_pool_from_log(&initialize),
        Some((PoolId(pool), PoolClass::UniswapV3))
    );
    assert_eq!(registry.identify_pool_from_log(&log(pool, vec![B256::zero()])), None);
    assert!(matches!(registry.get_loader(&PoolClass::UniswapV3), Some(Loader::UniswapV3(_))));
    assert!(registry.get_loader(&PoolClass::Curve).is_none());

    let replaced =
        registry.add_loader(PoolClass::UniswapV2, Loader::UniswapV3(UniswapV3Loader::new()));
    assert_eq!(
        replaced.supported_pool_classes(),
        vec![PoolClass::UniswapV2, PoolClass::UniswapV3]
    );
    assert_eq!(replaced.identify_pool_from_log(&sync), None);
    assert!(matches!(replaced.get_loader(&PoolClass::UniswapV2), Some(Loader::UniswapV3(_))));
}

#[test]
fn default_loader_config() {
    let config = LoaderConfig::default();
    assert_eq!(config.max_concurrent_tasks, 20);
    assert_eq!(config.start_block, 0);
    assert_eq!(config.block_batch_size, 5);
    assert_eq!(config.num_batches, 10000);
}
