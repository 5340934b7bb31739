use pool_loader::actors::block_state_actor::{BlockStateActor, IngestionState, Next};
use pool_loader::actors::history_loader_actor::{HistoryPoolLoaderActor, ScanNext, ScanState};
use pool_loader::actors::pool_loader_actor::{LoaderAction, PoolLoaderActor, PoolStatus};
use pool_loader::actors::state_update_processor::{
    ProcessorAction, ProcessorStats, StateUpdateProcessor,
};
use pool_loader::actors::Actor;
use pool_loader::bus::Bus;
use pool_loader::market_state::{Advance, MarketState, OutOfOrderBlock, WatermarkPolicy};
use pool_loader::messages::{Delivery, Message};
use pool_loader::ordered_map::OrdMap;
use pool_loader::pool_loaders::{Loader, PoolLoaders};
use pool_loader::primitives::{Address, B256, U256};
use pool_loader::state_update::{AccountState, BlockStateUpdate, StateUpdate};
use pool_loader::types::{
    LoaderConfig, Log, PoolClass, PoolData, PoolId, PoolProtocol, UniswapV3PoolData,
};
use pool_loader::uniswap_v2_loader::UniswapV2Loader;
use pool_loader::uniswap_v3_loader::UniswapV3Loader;

fn key(last: u8) -> B256 {
    let mut bytes = [0u8; 32];
    bytes[31] = last;
    B256(bytes)
}

fn touch(addresses: &[(u8, &[u8])]) -> StateUpdate {
    let mut update = StateUpdate::new();
    for (address, slots) in addresses {
        let mut storage = OrdMap::new();
        for slot in slots.iter() {
            storage.insert(key(*slot), U256::from(1u64));
        }
        update.insert(
            Address::repeat_byte(*address),
            AccountState { nonce: Some(1), balance: None, code: None, storage },
        );
    }
    update
}

fn v3_pool(address: u8) -> PoolData {
    PoolData::UniswapV3(UniswapV3PoolData {
        address: Address::repeat_byte(address),
        token0: Address::repeat_byte(0xa0),
        token1: Address::repeat_byte(0xa1),
        factory: Address::repeat_byte(0xa2),
        protocol: PoolProtocol::UniswapV3Like,
        fee: 500,
        liquidity: 1,
        sqrt_price_x96: U256::from(1u64),
        tick: 0,
    })
}

fn market_with(pools: &[u8]) -> MarketState {
    let mut market = MarketState::new();
    for pool in pools {
        market.add_pool(v3_pool(*pool));
    }
    market
}

fn pool(address: u8) -> (PoolId, PoolClass) {
    (PoolId(Address::repeat_byte(address)), PoolClass::UniswapV2)
}

fn block(number: u64, updates: Vec<StateUpdate>) -> BlockStateUpdate {
    BlockStateUpdate::new(number, B256::repeat_byte(number as u8), updates)
}

#[test]
fn test_processor_creation() {
    let market = MarketState::new();
    let mut bus = Bus::new(10);
    let rx = bus.subscribe();

    let mut processor = StateUpdateProcessor::new();
    assert_eq!(processor.name(), "StateUpdateProcessor");
    assert!(bus.receive(rx).is_none());
    assert_eq!(bus.publish(Message::Stop), 1);
    let delivery = bus.receive(rx).unwrap();
    assert!(matches!(processor.on_delivery(&market, &delivery), ProcessorAction::Finish(_)));
}

#[test]
fn actors_have_their_names() {
    assert_eq!(BlockStateActor::new(2).name(), "BlockStateActor");
    assert_eq!(HistoryPoolLoaderActor::new(LoaderConfig::default()).name(), "HistoryPoolLoaderActor");
    assert_eq!(PoolLoaderActor::new(20).name(), "PoolLoaderActor");
}

#[test]
fn consumer_counts_blocks_that_touch_pools() {
    let market = market_with(&[1, 3]);
    let mut processor = StateUpdateProcessor::new();

    let update = block(7, vec![touch(&[(1, &[0, 1]), (2, &[0])]), touch(&[(3, &[]), (1, &[5])])]);
    let changes = processor.process_state_update(&market, &update);
    assert_eq!(changes.len(), 2);
    assert_eq!(changes[0].address, Address::repeat_byte(1));
    assert_eq!(changes[0].pool_class, PoolClass::UniswapV3);
    assert_eq!(changes[0].changed_slots, vec![2, 1]);
    assert_eq!(changes[1].address, Address::repeat_byte(3));
    assert_eq!(changes[1].changed_slots, vec![0]);
    assert_eq!(
        processor.get_stats(),
        ProcessorStats { blocks_processed: 1, total_affected_pools: 2, last_block: 7 }
    );

    let quiet = block(8, vec![touch(&[(2, &[0])])]);
    assert!(processor.process_state_update(&market, &quiet).is_empty());
    assert_eq!(
        processor.get_stats(),
        ProcessorStats { blocks_processed: 1, total_affected_pools: 2, last_block: 7 }
    );

    let next = block(9, vec![touch(&[(3, &[1])])]);
    assert_eq!(processor.process_state_update(&market, &next).len(), 1);
    assert_eq!(
        processor.get_stats(),
        ProcessorStats { blocks_processed: 2, total_affected_pools: 3, last_block: 9 }
    );
}

#[test]
fn consumer_counts_saturate() {
    let market = market_with(&[1]);
    let mut processor = StateUpdateProcessor::new();
    processor.stats =
        ProcessorStats { blocks_processed: u64::MAX, total_affected_pools: usize::MAX, last_block: 1 };
    processor.process_state_update(&market, &block(2, vec![touch(&[(1, &[])])]));
    assert_eq!(
        processor.get_stats(),
        ProcessorStats { blocks_processed: u64::MAX, total_affected_pools: usize::MAX, last_block: 2 }
    );
}

#[test]
fn pool_changes_of_an_unregistered_address() {
    let market = market_with(&[1]);
    let update = block(1, vec![touch(&[(2, &[0])])]);
    assert!(StateUpdateProcessor::analyze_pool_changes(&market, Address::repeat_byte(2), &update)
        .is_none());
    let change =
        StateUpdateProcessor::analyze_pool_changes(&market, Address::repeat_byte(1), &update).unwrap();
    assert!(change.changed_slots.is_empty());
}

#[test]
fn consumer_reacts_to_each_kind_of_delivery() {
    let market = market_with(&[1]);
    let mut processor = StateUpdateProcessor::new();

    let update = Delivery::Message(Message::BlockStateUpdate(block(4, vec![touch(&[(1, &[0])])])));
    match processor.on_delivery(&market, &update) {
        ProcessorAction::React(changes) => assert_eq!(changes.len(), 1),
        other => panic!("unexpected action {:?}", other),
    }
    let counted = ProcessorStats { blocks_processed: 1, total_affected_pools: 1, last_block: 4 };

    assert!(matches!(processor.on_delivery(&market, &Delivery::Lagged(3)), ProcessorAction::Continue));
    assert!(matches!(
        processor.on_delivery(&market, &Delivery::Message(Message::PoolLoaded(v3_pool(9)))),
        ProcessorAction::Continue
    ));
    assert!(matches!(
        processor.on_delivery(&market, &Delivery::Message(Message::FetchPools(vec![pool(1)]))),
        ProcessorAction::Continue
    ));
    assert_eq!(processor.get_stats(), counted);

    match processor.on_delivery(&market, &Delivery::Message(Message::Stop)) {
        ProcessorAction::Finish(stats) => assert_eq!(stats, counted),
        other => panic!("unexpected action {:?}", other),
    }
    match processor.on_delivery(&market, &Delivery::Closed) {
        ProcessorAction::Finish(stats) => assert_eq!(stats, counted),
        other => panic!("unexpected action {:?}", other),
    }
}

#[test]
fn slow_consumer_sees_one_overflow_then_the_rest_in_order() {
    let market = market_with(&[1]);
    let mut processor = StateUpdateProcessor::new();
    let mut bus = Bus::new(10);
    let consumer = bus.subscribe();

    for number in 1..=15u64 {
        let receivers = bus.publish(Message::BlockStateUpdate(block(number, vec![touch(&[(1, &[0])])])));
        assert_eq!(receivers, 1);
    }

    let mut overflows = Vec::new();
    let mut heights = Vec::new();
    while let Some(delivery) = bus.receive(consumer) {
        if let Delivery::Lagged(dropped) = delivery {
            overflows.push(dropped);
        }
        match processor.on_delivery(&market, &delivery) {
            ProcessorAction::React(changes) => {
                assert_eq!(changes.len(), 1);
                heights.push(processor.get_stats().last_block);
            }
            ProcessorAction::Continue => {}
            ProcessorAction::Finish(_) => panic!("the consumer was not stopped"),
        }
    }

    assert_eq!(overflows, vec![5]);
    assert_eq!(heights, vec![6, 7, 8, 9, 10, 11, 12, 13, 14, 15]);
    assert_eq!(
        processor.get_stats(),
        ProcessorStats { blocks_processed: 10, total_affected_pools: 10, last_block: 15 }
    );

    assert_eq!(bus.publish(Message::Stop), 1);
    let stop = bus.receive(consumer).unwrap();
    assert!(matches!(processor.on_delivery(&market, &stop), ProcessorAction::Finish(_)));
    assert!(bus.receive(consumer).is_none());
}

fn heights(bus: &mut Bus, id: usize) -> Vec<u64> {
    let mut seen = Vec::new();
    while let Some(Delivery::Message(Message::BlockStateUpdate(update))) = bus.receive(id) {
        seen.push(update.block_number);
    }
    seen
}

#[test]
fn every_subscriber_has_a_backlog_of_its_own() {
    let mut bus = Bus::new(3);
    assert_eq!(bus.publish(Message::Stop), 0);
    let fast = bus.subscribe();
    let slow = bus.subscribe();
    assert_eq!((fast, slow), (0, 1));
    assert!(bus.receive(fast).is_none());

    for number in 1..=2u64 {
        assert_eq!(bus.publish(Message::BlockStateUpdate(block(number, vec![]))), 2);
    }
    assert_eq!(heights(&mut bus, fast), vec![1, 2]);
    for number in 3..=5u64 {
        assert_eq!(bus.publish(Message::BlockStateUpdate(block(number, vec![]))), 2);
    }
    assert_eq!(heights(&mut bus, fast), vec![3, 4, 5]);

    let late = bus.subscribe();
    assert_eq!(bus.publish(Message::BlockStateUpdate(block(6, vec![]))), 3);
    assert_eq!(heights(&mut bus, late), vec![6]);
    assert_eq!(heights(&mut bus, fast), vec![6]);

    assert!(matches!(bus.receive(slow), Some(Delivery::Lagged(3))));
    assert_eq!(heights(&mut bus, slow), vec![4, 5, 6]);
    assert!(bus.receive(slow).is_none());
    assert!(bus.receive(99).is_none());
}

#[test]
fn a_full_backlog_holds_exactly_its_capacity() {
    let mut bus = Bus::new(2);
    let id = bus.subscribe();
    bus.publish(Message::BlockStateUpdate(block(1, vec![])));
    bus.publish(Message::BlockStateUpdate(block(2, vec![])));
    assert_eq!(heights(&mut bus, id), vec![1, 2]);
    bus.publish(Message::BlockStateUpdate(block(3, vec![])));
    bus.publish(Message::BlockStateUpdate(block(4, vec![])));
    bus.publish(Message::BlockStateUpdate(block(5, vec![])));
    assert!(matches!(bus.receive(id), Some(Delivery::Lagged(1))));
    assert_eq!(heights(&mut bus, id), vec![4, 5]);

    let mut none = Bus::new(0);
    let id = none.subscribe();
    assert_eq!(none.publish(Message::Stop), 1);
    assert_eq!(none.publish(Message::Stop), 1);
    assert!(matches!(none.receive(id), Some(Delivery::Lagged(2))));
    assert!(none.receive(id).is_none());
}

#[test]
fn a_closed_bus_is_drained_and_then_reports_its_end() {
    let mut bus = Bus::new(4);
    let keeps = bus.subscribe();
    let leaves = bus.subscribe();
    assert_eq!(bus.publish(Message::BlockStateUpdate(block(1, vec![]))), 2);
    bus.unsubscribe(leaves);
    bus.unsubscribe(17);
    assert_eq!(bus.publish(Message::BlockStateUpdate(block(2, vec![]))), 1);
    assert!(bus.receive(leaves).is_none());
    bus.close();
    assert_eq!(bus.publish(Message::BlockStateUpdate(block(3, vec![]))), 0);
    assert_eq!(heights(&mut bus, keeps), vec![1, 2]);
    assert!(matches!(bus.receive(keeps), Some(Delivery::Closed)));
    assert!(matches!(bus.receive(keeps), Some(Delivery::Closed)));
    assert!(bus.receive(leaves).is_none());
}

#[test]
fn ingestion_starts_from_the_present_and_catches_up() {
    let mut market = market_with(&[1]);
    let mut actor = BlockStateActor::new(2);
    assert_eq!(actor.current_state(), IngestionState::Uninitialized);
    assert_eq!(actor.poll(), Next::QueryHeight);

    assert_eq!(actor.on_height(None), Next::Wait(2));
    assert_eq!(actor.current_state(), IngestionState::Uninitialized);

    assert_eq!(actor.on_height(Some(100)), Next::Wait(2));
    assert_eq!(actor.current_state(), IngestionState::Polling { cursor: 100 });
    assert_eq!(actor.poll(), Next::QueryHeight);
    assert_eq!(actor.on_height(Some(100)), Next::Wait(2));
    assert_eq!(actor.on_height(Some(99)), Next::Wait(2));
    assert_eq!(actor.on_height(None), Next::Wait(2));
    assert_eq!(actor.current_state(), IngestionState::Polling { cursor: 100 });

    assert_eq!(actor.on_height(Some(103)), Next::Fetch(101));
    assert_eq!(actor.current_state(), IngestionState::Fetching { cursor: 100, remote: 103 });
    assert_eq!(actor.poll(), Next::Fetch(101));
    assert_eq!(actor.on_height(Some(200)), Next::Fetch(101));

    let outcome = actor.on_block(
        &mut market,
        Some((B256::repeat_byte(0x65), vec![touch(&[(1, &[0]), (2, &[0])])])),
    );
    assert_eq!(outcome.next, Next::Fetch(102));
    assert_eq!(outcome.skipped, None);
    let processed = outcome.processed.unwrap();
    assert_eq!(processed.affected, vec![Address::repeat_byte(1)]);
    assert_eq!(processed.advance, Ok(Advance::OutOfSequence));
    match processed.message {
        Some(Message::BlockStateUpdate(update)) => {
            assert_eq!(update.block_number, 101);
            assert_eq!(update.block_hash, B256::repeat_byte(0x65));
            assert_eq!(update.state_update.len(), 1);
        }
        other => panic!("unexpected message {:?}", other),
    }
    assert_eq!(market.current_block, 101);
    assert_eq!(market.db.get_storage(Address::repeat_byte(2), U256::from(0u64)), Some(U256::from(1u64)));

    let outcome = actor.on_block(&mut market, None);
    assert_eq!(outcome.skipped, Some(102));
    assert!(outcome.processed.is_none());
    assert_eq!(outcome.next, Next::Fetch(103));
    assert_eq!(market.current_block, 101);

    let outcome =
        actor.on_block(&mut market, Some((B256::repeat_byte(0x67), vec![touch(&[(2, &[1])])])));
    assert_eq!(outcome.next, Next::Wait(2));
    let processed = outcome.processed.unwrap();
    assert!(processed.affected.is_empty());
    assert!(processed.message.is_none());
    assert_eq!(processed.advance, Ok(Advance::OutOfSequence));
    assert_eq!(market.current_block, 103);
    assert_eq!(actor.current_state(), IngestionState::Polling { cursor: 103 });

    let outcome = actor.on_block(&mut market, None);
    assert_eq!(outcome.next, Next::QueryHeight);
    assert_eq!(outcome.skipped, None);
    assert_eq!(actor.current_state(), IngestionState::Polling { cursor: 103 });
}

#[test]
fn ingestion_stops_only_at_the_top_of_a_polling_round() {
    let mut market = MarketState::new();
    let mut actor = BlockStateActor::new(1);
    actor.on_height(Some(10));
    assert_eq!(actor.on_height(Some(11)), Next::Fetch(11));
    actor.request_stop();
    assert_eq!(actor.poll(), Next::Fetch(11));
    assert_eq!(actor.on_block(&mut market, Some((B256::zero(), vec![]))).next, Next::Wait(1));
    assert_eq!(market.current_block, 11);
    assert_eq!(actor.poll(), Next::Halt);
    assert_eq!(actor.current_state(), IngestionState::Stopped);
    assert_eq!(actor.poll(), Next::Halt);
    assert_eq!(actor.on_height(Some(50)), Next::Halt);
    assert_eq!(actor.on_block(&mut market, None).next, Next::Halt);
    assert_eq!(actor.current_state(), IngestionState::Stopped);

    let mut fresh = BlockStateActor::new(1);
    fresh.request_stop();
    assert_eq!(fresh.poll(), Next::Halt);
}

#[test]
fn a_block_out_of_order_is_applied_and_reported_under_the_strict_policy() {
    let mut market = MarketState::with_policy(WatermarkPolicy::Strict);
    market.add_pool(v3_pool(1));
    let processed = BlockStateActor::process_block(
        &mut market,
        5,
        B256::repeat_byte(5),
        vec![touch(&[(1, &[3])])],
    );
    assert_eq!(processed.advance, Err(OutOfOrderBlock { watermark: 0, block_number: 5 }));
    assert_eq!(processed.affected, vec![Address::repeat_byte(1)]);
    assert!(processed.message.is_some());
    assert_eq!(market.current_block, 0);
    assert_eq!(market.db.get_storage(Address::repeat_byte(1), U256::from(3u64)), Some(U256::from(1u64)));

    let processed = BlockStateActor::process_block(&mut market, 1, B256::repeat_byte(1), vec![]);
    assert_eq!(processed.advance, Ok(Advance::InSequence));
    assert!(processed.affected.is_empty());
    assert!(processed.message.is_none());
    assert_eq!(market.current_block, 1);
}

#[test]
fn scan_walks_backwards_from_the_newest_block() {
    let config =
        LoaderConfig { max_concurrent_tasks: 2, start_block: 0, block_batch_size: 5, num_batches: 10 };
    let mut actor = HistoryPoolLoaderActor::new(config);
    assert_eq!(actor.next_batch(), ScanNext::QueryHeight);
    assert_eq!(actor.begin(), ScanNext::QueryHeight);
    assert_eq!(actor.state, ScanState::AwaitingHeight);
    assert_eq!(actor.on_height(Some(20)), ScanNext::Scan { from_block: 15, to_block: 19 });
    assert_eq!(actor.state, ScanState::Scanning { current_block: 15, batches_done: 1 });
    assert_eq!(actor.next_batch(), ScanNext::Scan { from_block: 10, to_block: 14 });
    assert_eq!(actor.next_batch(), ScanNext::Scan { from_block: 5, to_block: 9 });
    assert_eq!(actor.next_batch(), ScanNext::Finish);
    assert_eq!(actor.state, ScanState::Finished);
    assert_eq!(actor.next_batch(), ScanNext::Finish);
    assert_eq!(actor.begin(), ScanNext::Finish);
    assert_eq!(actor.on_height(Some(9)), ScanNext::Finish);
}

#[test]
fn scan_ends_with_the_batches_or_at_the_first_blocks() {
    let limited =
        LoaderConfig { max_concurrent_tasks: 2, start_block: 100, block_batch_size: 10, num_batches: 2 };
    let mut actor = HistoryPoolLoaderActor::new(limited);
    assert_eq!(actor.begin(), ScanNext::Scan { from_block: 90, to_block: 99 });
    assert_eq!(actor.next_batch(), ScanNext::Scan { from_block: 80, to_block: 89 });
    assert_eq!(actor.next_batch(), ScanNext::Finish);

    let short =
        LoaderConfig { max_concurrent_tasks: 2, start_block: 6, block_batch_size: 5, num_batches: 9 };
    let mut actor = HistoryPoolLoaderActor::new(short);
    assert_eq!(actor.begin(), ScanNext::Scan { from_block: 1, to_block: 5 });
    assert_eq!(actor.next_batch(), ScanNext::Finish);

    let exact =
        LoaderConfig { max_concurrent_tasks: 2, start_block: 5, block_batch_size: 5, num_batches: 9 };
    assert_eq!(HistoryPoolLoaderActor::new(exact).begin(), ScanNext::Finish);

    let empty_batches =
        LoaderConfig { max_concurrent_tasks: 2, start_block: 50, block_batch_size: 0, num_batches: 9 };
    assert_eq!(HistoryPoolLoaderActor::new(empty_batches).begin(), ScanNext::Finish);

    let no_batches =
        LoaderConfig { max_concurrent_tasks: 2, start_block: 50, block_batch_size: 5, num_batches: 0 };
    assert_eq!(HistoryPoolLoaderActor::new(no_batches).begin(), ScanNext::Finish);

    let widest = LoaderConfig {
        max_concurrent_tasks: 2,
        start_block: u64::MAX,
        block_batch_size: u64::MAX,
        num_batches: 3,
    };
    assert_eq!(HistoryPoolLoaderActor::new(widest).begin(), ScanNext::Finish);

    let mut failing = HistoryPoolLoaderActor::new(LoaderConfig::default());
    assert_eq!(failing.begin(), ScanNext::QueryHeight);
    assert_eq!(failing.on_height(None), ScanNext::Fail);
    assert_eq!(failing.state, ScanState::Finished);
}

#[test]
fn logs_of_a_batch_name_each_pool_once() {
    let loaders = PoolLoaders::new()
        .add_loader(PoolClass::UniswapV2, Loader::UniswapV2(UniswapV2Loader::new()))
        .add_loader(PoolClass::UniswapV3, Loader::UniswapV3(UniswapV3Loader::new()));
    let sync = B256(alloy::primitives::keccak256("Sync(uint112,uint112)".as_bytes()).0);
    let initialize = B256(alloy::primitives::keccak256("Initialize(uint160,int24)".as_bytes()).0);
    let log = |address: u8, topic: B256| Log { address: Address::repeat_byte(address), topics: vec![topic] };

    let logs = vec![
        log(7, sync),
        log(3, B256::zero()),
        log(5, initialize),
        log(7, initialize),
        log(5, initialize),
        log(1, sync),
    ];
    match HistoryPoolLoaderActor::process_logs(&loaders, &logs) {
        Some(Message::FetchPools(pools)) => assert_eq!(
            pools,
            vec![
                (PoolId(Address::repeat_byte(7)), PoolClass::UniswapV2),
                (PoolId(Address::repeat_byte(5)), PoolClass::UniswapV3),
                (PoolId(Address::repeat_byte(1)), PoolClass::UniswapV2),
            ]
        ),
        other => panic!("unexpected request {:?}", other),
    }
    assert!(HistoryPoolLoaderActor::process_logs(&loaders, &vec![log(3, B256::zero())]).is_none());
    assert!(HistoryPoolLoaderActor::process_logs(&loaders, &vec![]).is_none());
    assert!(HistoryPoolLoaderActor::process_logs(&PoolLoaders::new(), &logs).is_none());
}

fn id(address: u8) -> PoolId {
    PoolId(Address::repeat_byte(address))
}

#[test]
fn a_pool_dispatched_twice_is_fetched_once() {
    let mut actor = PoolLoaderActor::new(8);
    let request = Delivery::Message(Message::FetchPools(vec![pool(1), pool(2), pool(1)]));
    match actor.on_message(&request) {
        LoaderAction::Start(started) => assert_eq!(started, vec![pool(1), pool(2)]),
        other => panic!("unexpected action {:?}", other),
    }
    match actor.on_message(&request) {
        LoaderAction::Start(started) => assert!(started.is_empty()),
        other => panic!("unexpected action {:?}", other),
    }
    let other_class = (PoolId(Address::repeat_byte(2)), PoolClass::UniswapV3);
    assert_eq!(actor.dispatch(&vec![other_class, pool(3)]), vec![pool(3)]);
    assert_eq!(actor.fetches_in_flight(), 3);
    assert_eq!(actor.status_of(&id(1)), Some(PoolStatus::Fetching));
    assert_eq!(actor.on_task_finished(id(1), true), None);
    assert_eq!(actor.on_task_finished(id(2), true), None);
    assert_eq!(actor.on_task_finished(id(3), true), None);
    assert_eq!(actor.fetches_in_flight(), 0);
    assert_eq!(actor.status_of(&id(1)), Some(PoolStatus::Loaded));
    assert!(actor.dispatch(&vec![pool(1), pool(2), pool(3)]).is_empty());
    assert_eq!(actor.fetches_in_flight(), 0);
}

#[test]
fn a_pool_whose_fetch_failed_may_be_dispatched_again() {
    let mut actor = PoolLoaderActor::new(2);
    assert_eq!(actor.dispatch(&vec![pool(1), pool(2)]), vec![pool(1), pool(2)]);
    assert_eq!(actor.on_task_finished(id(1), false), None);
    assert_eq!(actor.on_task_finished(id(2), true), None);
    assert_eq!(actor.status_of(&id(1)), None);
    assert_eq!(actor.status_of(&id(2)), Some(PoolStatus::Loaded));
    assert_eq!(actor.fetches_in_flight(), 0);

    assert_eq!(actor.dispatch(&vec![pool(2), pool(1)]), vec![pool(1)]);
    assert_eq!(actor.fetches_in_flight(), 1);
    assert_eq!(actor.on_task_finished(id(1), true), None);
    assert!(actor.dispatch(&vec![pool(1)]).is_empty());
}

#[test]
fn the_end_of_a_fetch_that_does_not_run_changes_nothing() {
    let mut actor = PoolLoaderActor::new(1);
    assert_eq!(actor.on_task_finished(id(1), true), None);
    assert_eq!(actor.dispatch(&vec![pool(1), pool(2)]), vec![pool(1)]);
    assert_eq!(actor.status_of(&id(2)), Some(PoolStatus::Waiting));
    assert_eq!(actor.on_task_finished(id(2), true), None);
    assert_eq!(actor.on_task_finished(id(9), false), None);
    assert_eq!(actor.fetches_in_flight(), 1);
    assert_eq!(actor.pools_waiting(), 1);
    assert_eq!(actor.on_task_finished(id(1), true), Some(pool(2)));
    assert_eq!(actor.on_task_finished(id(1), true), None);
    assert_eq!(actor.fetches_in_flight(), 1);
    assert_eq!(actor.on_task_finished(id(2), false), None);
    assert_eq!(actor.fetches_in_flight(), 0);
}

#[test]
fn two_permits_let_two_of_five_fetches_run_at_a_time() {
    let mut actor = PoolLoaderActor::new(2);
    let pools = vec![pool(1), pool(2), pool(3), pool(4), pool(5)];
    let mut running = actor.dispatch(&pools);
    assert_eq!(running, vec![pool(1), pool(2)]);
    assert_eq!(actor.fetches_in_flight(), 2);
    assert_eq!(actor.pools_waiting(), 3);

    let mut completed = Vec::new();
    let mut most = running.len();
    while !running.is_empty() {
        let finished = running.remove(0);
        let loaded = finished != pool(3);
        completed.push(finished);
        if let Some(next) = actor.on_task_finished(finished.0, loaded) {
            running.push(next);
        }
        assert_eq!(actor.fetches_in_flight(), running.len());
        assert!(running.len() <= 2);
        most = most.max(running.len());
    }
    assert_eq!(most, 2);
    assert_eq!(completed, pools);
    assert_eq!(actor.fetches_in_flight(), 0);
    assert_eq!(actor.pools_waiting(), 0);
    assert_eq!(actor.status_of(&id(3)), None);
    assert_eq!(actor.status_of(&id(5)), Some(PoolStatus::Loaded));
}

#[test]
fn pools_wait_in_the_order_of_their_acceptance() {
    let mut actor = PoolLoaderActor::new(1);
    assert_eq!(actor.dispatch(&vec![pool(9), pool(8)]), vec![pool(9)]);
    assert!(actor.dispatch(&vec![pool(7), pool(9)]).is_empty());
    assert_eq!(actor.pools_waiting(), 2);
    assert_eq!(actor.on_task_finished(id(9), true), Some(pool(8)));
    assert_eq!(actor.on_task_finished(id(8), true), Some(pool(7)));
    assert_eq!(actor.on_task_finished(id(7), true), None);

    let mut closed = PoolLoaderActor::new(0);
    assert!(closed.dispatch(&vec![pool(1)]).is_empty());
    assert_eq!(closed.pools_waiting(), 1);
    assert_eq!(closed.on_task_finished(id(1), true), None);
    assert_eq!(closed.pools_waiting(), 1);
}

#[test]
fn loader_reacts_to_each_kind_of_delivery() {
    let mut actor = PoolLoaderActor::new(1);
    assert!(matches!(actor.on_message(&Delivery::Lagged(4)), LoaderAction::Continue));
    assert!(matches!(
        actor.on_message(&Delivery::Message(Message::PoolLoaded(v3_pool(1)))),
        LoaderAction::Continue
    ));
    assert!(matches!(
        actor.on_message(&Delivery::Message(Message::BlockStateUpdate(block(1, vec![])))),
        LoaderAction::Continue
    ));
    assert!(matches!(actor.on_message(&Delivery::Message(Message::Stop)), LoaderAction::Halt));
    assert!(matches!(actor.on_message(&Delivery::Closed), LoaderAction::Halt));
    assert_eq!(actor.fetches_in_flight(), 0);
}
