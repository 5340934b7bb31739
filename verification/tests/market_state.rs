use pool_loader::market_state::{
    Advance, LocalDB, MarketState, OutOfOrderBlock, WatermarkPolicy,
};
use pool_loader::ordered_map::OrdMap;
use pool_loader::primitives::{Address, B256, U256};
use pool_loader::state_update::{AccountState, StateUpdate};
use pool_loader::types::{PoolData, PoolProtocol, UniswapV2PoolData};

fn key(last: u8) -> B256 {
    let mut bytes = [0u8; 32];
    bytes[31] = last;
    B256(bytes)
}

fn delta(
    nonce: Option<u64>,
    balance: Option<u64>,
    storage: &[(B256, u64)],
) -> AccountState {
    let mut slots = OrdMap::new();
    for (k, v) in storage {
        slots.insert(*k, U256::from(*v));
    }
    AccountState { nonce, balance: balance.map(U256::from), code: None, storage: slots }
}

fn diff(entries: Vec<(Address, AccountState)>) -> StateUpdate {
    let mut update = StateUpdate::new();
    for (address, state) in entries {
        update.insert(address, state);
    }
    update
}

fn v2_pool(address: Address) -> PoolData {
    PoolData::UniswapV2(UniswapV2PoolData {
        address,
        token0: Address::repeat_byte(2),
        token1: Address::repeat_byte(3),
        factory: Address::repeat_byte(4),
        protocol: PoolProtocol::UniswapV2,
        fee: U256::from(30),
        reserve0: U256::from(1000),
        reserve1: U256::from(2000),
        reserves_slot: None,
    })
}

#[test]
fn test_local_db() {
    let mut db = LocalDB::new();
    let address = Address::repeat_byte(1);
    let slot = U256::from(0);
    let value = U256::from(100);

    db.set_storage(address, slot, value);
    assert_eq!(db.get_storage(address, slot), Some(value));
}

#[test]
fn test_apply_state_update() {
    let mut db = LocalDB::new();
    let address = Address::repeat_byte(1);

    let mut update = StateUpdate::new();
    let mut storage = OrdMap::new();
    storage.insert(B256::zero(), U256::from(100));

    update.insert(
        address,
        AccountState { nonce: Some(1), balance: Some(U256::from(1000)), code: None, storage },
    );

    db.apply_state_update(&update);

    assert_eq!(db.get_nonce(address), Some(1));
    assert_eq!(db.get_balance(address), Some(U256::from(1000)));
    assert_eq!(db.get_storage(address, U256::zero()), Some(U256::from(100)));
}

#[test]
fn test_market_state() {
    let mut market = MarketState::new();

    let pool_address = Address::repeat_byte(1);
    let pool = v2_pool(pool_address);

    market.add_pool(pool);
    assert!(market.is_pool(&pool_address));
    assert_eq!(market.pools.len(), 1);
}

#[test]
fn empty_cache_then_one_diff() {
    let addr1 = Address::repeat_byte(1);
    let mut db = LocalDB::new();
    assert_eq!(db.get_storage(addr1, U256::from(0)), None);
    assert_eq!(db.get_balance(addr1), None);

    db.apply_state_update(&diff(vec![(addr1, delta(None, Some(1000), &[(key(0), 100)]))]));

    assert_eq!(db.get_storage(addr1, U256::from(0)), Some(U256::from(100)));
    assert_eq!(db.get_balance(addr1), Some(U256::from(1000)));
    assert_eq!(db.get_storage(addr1, U256::from(1)), None);
    assert_eq!(db.get_nonce(addr1), None);
}

#[test]
fn affected_pools_of_a_batch_are_sorted_and_exclude_strangers() {
    let addr1 = Address::repeat_byte(1);
    let addr2 = Address::repeat_byte(2);
    let addr3 = Address::repeat_byte(3);
    let mut market = MarketState::new();
    market.add_pool(v2_pool(addr3));
    market.add_pool(v2_pool(addr1));

    let tx1 = diff(vec![(addr2, delta(Some(1), None, &[])), (addr1, delta(Some(1), None, &[]))]);
    let tx2 = diff(vec![(addr3, delta(None, Some(5), &[]))]);

    assert_eq!(market.get_affected_pools_vec(&vec![tx1, tx2]), vec![addr1, addr3]);
}

#[test]
fn affected_pools_are_listed_once_and_in_order() {
    let addr1 = Address::repeat_byte(1);
    let addr3 = Address::repeat_byte(3);
    let addr9 = Address::repeat_byte(9);
    let mut market = MarketState::new();
    market.add_pool(v2_pool(addr9));
    market.add_pool(v2_pool(addr1));
    market.add_pool(v2_pool(addr3));

    let tx1 = diff(vec![(addr9, delta(Some(1), None, &[])), (addr3, delta(Some(1), None, &[]))]);
    let tx2 = diff(vec![(addr3, delta(Some(2), None, &[])), (addr1, delta(Some(1), None, &[]))]);
    let tx3 = diff(vec![(addr9, delta(Some(2), None, &[]))]);

    assert_eq!(market.get_affected_pools(&tx1), vec![addr3, addr9]);
    assert_eq!(market.get_affected_pools(&tx2), vec![addr1, addr3]);
    assert_eq!(market.get_affected_pools_vec(&vec![tx1, tx2, tx3]), vec![addr1, addr3, addr9]);
    assert_eq!(market.get_affected_pools_vec(&vec![]), Vec::<Address>::new());
}

#[test]
fn affected_pools_with_an_empty_registry() {
    let market = MarketState::new();
    let tx = diff(vec![(Address::repeat_byte(1), delta(Some(1), None, &[]))]);
    assert!(market.get_affected_pools(&tx).is_empty());
    assert!(market.get_affected_pools_vec(&vec![tx]).is_empty());
}

#[test]
fn applying_a_diff_twice_is_applying_it_once() {
    let addr1 = Address::repeat_byte(1);
    let addr2 = Address::repeat_byte(2);
    let update = diff(vec![
        (addr1, delta(Some(7), Some(1000), &[(key(0), 100), (key(5), 55)])),
        (addr2, delta(None, None, &[(key(1), 1)])),
    ]);
    let mut once = LocalDB::new();
    once.set_storage(addr1, U256::from(9), U256::from(99));
    let mut twice = once.clone();
    once.apply_state_update(&update);
    twice.apply_state_update(&update);
    twice.apply_state_update(&update);

    for address in [addr1, addr2, Address::repeat_byte(3)] {
        assert_eq!(once.get_nonce(address), twice.get_nonce(address));
        assert_eq!(once.get_balance(address), twice.get_balance(address));
        for slot in [0u64, 1, 5, 9, 10] {
            assert_eq!(
                once.get_storage(address, U256::from(slot)),
                twice.get_storage(address, U256::from(slot))
            );
        }
    }
    assert_eq!(once.storage_entries(), 4);
    assert_eq!(twice.storage_entries(), 4);
}

#[test]
fn the_later_transaction_of_a_block_wins() {
    let addr1 = Address::repeat_byte(1);
    let first = diff(vec![(addr1, delta(Some(1), Some(10), &[(key(0), 100)]))]);
    let second = diff(vec![(addr1, delta(None, Some(20), &[(key(0), 200)]))]);
    let mut db = LocalDB::new();
    db.apply_state_update_vec(&vec![first, second]);
    assert_eq!(db.get_storage(addr1, U256::from(0)), Some(U256::from(200)));
    assert_eq!(db.get_balance(addr1), Some(U256::from(20)));
    assert_eq!(db.get_nonce(addr1), Some(1));
}

#[test]
fn a_balance_only_delta_keeps_storage_and_nonce() {
    let addr1 = Address::repeat_byte(1);
    let mut db = LocalDB::new();
    db.set_storage(addr1, U256::from(3), U256::from(33));
    db.set_nonce(addr1, 4);
    db.set_balance(addr1, U256::from(1));

    db.apply_account_state(addr1, &delta(None, Some(500), &[]));

    assert_eq!(db.get_storage(addr1, U256::from(3)), Some(U256::from(33)));
    assert_eq!(db.get_nonce(addr1), Some(4));
    assert_eq!(db.get_balance(addr1), Some(U256::from(500)));
    assert_eq!(db.storage_entries(), 1);
}

#[test]
fn a_storage_key_is_read_as_a_big_endian_number() {
    let addr1 = Address::repeat_byte(1);
    let mut bytes = [0u8; 32];
    bytes[0] = 0x01;
    bytes[31] = 0x02;
    let mut db = LocalDB::new();
    db.apply_account_state(addr1, &delta(None, None, &[(B256(bytes), 7)]));
    let slot = U256::from_limbs([0x02, 0, 0, 0x0100_0000_0000_0000]);
    assert_eq!(db.get_storage(addr1, slot), Some(U256::from(7)));
    assert_eq!(db.get_storage(addr1, U256::from(2)), None);
}

#[test]
fn strict_watermark_takes_only_the_next_block() {
    let mut market = MarketState::with_policy(WatermarkPolicy::Strict);
    assert_eq!(market.update_block(1), Ok(Advance::InSequence));
    assert_eq!(market.update_block(2), Ok(Advance::InSequence));
    assert_eq!(
        market.update_block(4),
        Err(OutOfOrderBlock { watermark: 2, block_number: 4 })
    );
    assert_eq!(market.current_block, 2);
    assert_eq!(
        market.update_block(2),
        Err(OutOfOrderBlock { watermark: 2, block_number: 2 })
    );
    assert_eq!(
        market.update_block(0),
        Err(OutOfOrderBlock { watermark: 2, block_number: 0 })
    );
    assert_eq!(market.current_block, 2);
    assert_eq!(market.update_block(3), Ok(Advance::InSequence));
    assert_eq!(market.current_block, 3);
}

#[test]
fn best_effort_watermark_moves_only_forward() {
    let mut market = MarketState::new();
    assert_eq!(market.policy, WatermarkPolicy::BestEffort);
    assert_eq!(market.update_block(100), Ok(Advance::OutOfSequence));
    assert_eq!(market.current_block, 100);
    assert_eq!(market.update_block(101), Ok(Advance::InSequence));
    assert_eq!(market.update_block(50), Ok(Advance::OutOfSequence));
    assert_eq!(market.current_block, 101);
    assert_eq!(market.update_block(101), Ok(Advance::OutOfSequence));
    assert_eq!(market.current_block, 101);
}

#[test]
fn watermark_at_the_largest_height_has_no_next_block() {
    let mut strict = MarketState::with_policy(WatermarkPolicy::Strict);
    strict.current_block = u64::MAX;
    assert_eq!(
        strict.update_block(0),
        Err(OutOfOrderBlock { watermark: u64::MAX, block_number: 0 })
    );
    assert_eq!(strict.current_block, u64::MAX);
}

#[test]
fn stats_count_pools_and_slots() {
    let addr1 = Address::repeat_byte(1);
    let addr2 = Address::repeat_byte(2);
    let mut market = MarketState::new();
    let empty = market.stats();
    assert_eq!((empty.total_pools, empty.current_block, empty.storage_entries), (0, 0, 0));

    market.add_pool(v2_pool(addr1));
    market.add_pool(v2_pool(addr1));
    market.add_pool(v2_pool(addr2));
    market.apply_state_update(&diff(vec![
        (addr1, delta(None, None, &[(key(0), 1), (key(1), 2)])),
        (addr2, delta(Some(1), None, &[(key(0), 3)])),
    ]));
    market.apply_state_update(&diff(vec![(addr1, delta(None, None, &[(key(1), 9)]))]));
    assert_eq!(market.update_block(12), Ok(Advance::OutOfSequence));

    let stats = market.stats();
    assert_eq!(stats.total_pools, 2);
    assert_eq!(stats.current_block, 12);
    assert_eq!(stats.storage_entries, 3);
    assert_eq!(market.get_pool(&addr2).map(|p| p.address()), Some(addr2));
    assert!(market.get_pool(&Address::repeat_byte(7)).is_none());
}
