use usdc_indexer::classify::RpcErrorKind;
use usdc_indexer::config::{get, init, AppConfig, ConfigCell};
use usdc_indexer::decode::RawLog;
use usdc_indexer::errors::AppError;
use usdc_indexer::ingest::{process_live_log, Backfill, BlockTimeCache, TimedLog};
use usdc_indexer::store::Store;
use usdc_indexer::topic::transfer_event_topic;

fn addr_topic(last: u8) -> Vec<u8> {
    let mut t = vec![0u8; 32];
    t[31] = last;
    t
}

fn amount_data(amount: u128) -> Vec<u8> {
    let mut d = vec![0u8; 32];
    d[16..32].copy_from_slice(&amount.to_be_bytes());
    d
}

fn transfer_log(block: u64, tx_last: u8, log_index: u64, from: u8, to: u8, amount: u128) -> RawLog {
    let mut tx = vec![0u8; 32];
    tx[31] = tx_last;
    RawLog {
        block_number: Some(block),
        transaction_hash: Some(tx),
        log_index: Some(log_index),
        topics: vec![transfer_event_topic(), addr_topic(from), addr_topic(to)],
        data: amount_data(amount),
    }
}

fn timed(log: RawLog, t: Option<u64>) -> TimedLog {
    TimedLog { log, block_time: t }
}

#[test]
fn insert_is_idempotent_per_key() {
    let mut st = Store::new();
    for _ in 0..3 {
        st.insert_transfer_if_not_exists("0xab", 0, 103, "0x01", "0x02", 1_000_000, 77);
    }
    assert_eq!(st.transfers.len(), 1);
    st.insert_transfer_if_not_exists("0xab", 1, 103, "0x01", "0x02", 5, 77);
    st.insert_transfer_if_not_exists("0xcd", 0, 104, "0x01", "0x02", 5, 78);
    assert_eq!(st.transfers.len(), 3);
    assert_eq!(st.transfers[0].id, 1);
    assert_eq!(st.transfers[1].id, 2);
    assert_eq!(st.transfers[2].id, 3);
}

#[test]
fn cursor_is_monotone() {
    let mut st = Store::new();
    assert_eq!(st.get_last_block(), 0);
    st.update_sync_state(10);
    assert_eq!(st.get_last_block(), 10);
    st.update_sync_state(5);
    assert_eq!(st.get_last_block(), 10);
    st.update_sync_state(12);
    assert_eq!(st.get_last_block(), 12);
}

#[test]
fn cursor_default_and_initialization() {
    let mut st = Store::new();
    assert_eq!(st.get_last_block_or_default(100), 100);
    st.update_sync_state_if_needs(100);
    assert_eq!(st.get_last_block(), 100);
    st.update_sync_state_if_needs(50);
    assert_eq!(st.get_last_block(), 100);
    assert_eq!(st.get_last_block_or_default(7), 100);
}

#[test]
fn lookup_by_id() {
    let mut st = Store::new();
    st.insert_transfer_if_not_exists("0xab", 0, 103, "0x01", "0x02", 9, 77);
    let row = st.get_transfer_by_id(1).expect("the only row");
    assert_eq!(row.tx_hash, "0xab");
    assert_eq!(row.log_index, 0);
    assert_eq!(row.block_number, 103);
    assert_eq!(row.amount, 9);
    assert!(st.get_transfer_by_id(2).is_none());
    assert!(st.get_transfer_by_id(0).is_none());
    assert!(st.get_transfer_by_id(-1).is_none());
}

#[test]
fn listing_orders_and_paginates() {
    let mut st = Store::new();
    st.insert_transfer_if_not_exists("0xa1", 0, 1, "0x01", "0x02", 1, 50);
    st.insert_transfer_if_not_exists("0xa2", 0, 2, "0x01", "0x03", 2, 70);
    st.insert_transfer_if_not_exists("0xa3", 0, 3, "0x04", "0x02", 3, 60);
    st.insert_transfer_if_not_exists("0xa4", 0, 4, "0x01", "0x02", 4, 70);
    let all = st.list_transfers(None, None, None, None, None, None);
    // newest block time first; the tie at 70 by identifier, oldest first
    let ids: Vec<i64> = all.iter().map(|t| t.id).collect();
    assert_eq!(ids, vec![2, 4, 3, 1]);
    // filters
    let from1 = st.list_transfers(Some("0x01".into()), None, None, None, None, None);
    assert_eq!(from1.iter().map(|t| t.id).collect::<Vec<_>>(), vec![2, 4, 1]);
    let to2 = st.list_transfers(None, Some("0x02".into()), None, None, None, None);
    assert_eq!(to2.iter().map(|t| t.id).collect::<Vec<_>>(), vec![4, 3, 1]);
    let windowed = st.list_transfers(None, None, Some(70), Some(50), None, None);
    assert_eq!(windowed.iter().map(|t| t.id).collect::<Vec<_>>(), vec![3]);
    // pagination
    let page1 = st.list_transfers(None, None, None, None, Some(1), Some(2));
    assert_eq!(page1.iter().map(|t| t.id).collect::<Vec<_>>(), vec![2, 4]);
    let page2 = st.list_transfers(None, None, None, None, Some(2), Some(2));
    assert_eq!(page2.iter().map(|t| t.id).collect::<Vec<_>>(), vec![3, 1]);
    let page3 = st.list_transfers(None, None, None, None, Some(3), Some(2));
    assert!(page3.is_empty());
    // limit clamping
    let clamped_low = st.list_transfers(None, None, None, None, None, Some(0));
    assert_eq!(clamped_low.len(), 1);
    let clamped_high = st.list_transfers(None, None, None, None, None, Some(200));
    assert_eq!(clamped_high.len(), 4);
}

#[test]
fn clean_start_ingests_and_advances() {
    // empty cursor, configured start block 100, head 105, one Transfer
    // at block 103 with raw amount 1000000
    let mut st = Store::new();
    st.update_sync_state_if_needs(100);
    let start = st.get_last_block_or_default(100);
    let mut bf = Backfill::new(start, 105, 100);
    assert!(!bf.done());
    assert_eq!(bf.window(), (100, 105));
    let logs = vec![timed(transfer_log(103, 0xab, 0, 0x01, 0x02, 1_000_000), Some(777))];
    let sleep = bf.apply_logs(&mut st, &logs);
    assert_eq!(sleep, 200);
    assert_eq!(st.transfers.len(), 1);
    assert_eq!(st.transfers[0].amount, 1_000_000); // exactly 1.000000 tokens
    assert_eq!(st.transfers[0].block_time, 777);
    assert_eq!(
        st.transfers[0].tx_hash,
        "0x00000000000000000000000000000000000000000000000000000000000000ab"
    );
    assert_eq!(st.transfers[0].from_address, "0x0000000000000000000000000000000000000001");
    assert_eq!(st.transfers[0].to_address, "0x0000000000000000000000000000000000000002");
    assert_eq!(st.get_last_block(), 105);
    assert!(bf.done());
}

#[test]
fn restart_mid_range_adds_no_duplicate() {
    let mut st = Store::new();
    // the first run stored the block-103 transfer and the cursor at 102
    let logs = vec![timed(transfer_log(103, 0xab, 0, 0x01, 0x02, 1_000_000), Some(777))];
    let mut first = Backfill::new(100, 102, 100);
    first.apply_logs(&mut st, &logs);
    assert_eq!(st.get_last_block(), 102);
    // restart: cursor 102, head 105, the same log is fetched again
    let mut bf = Backfill::new(st.get_last_block(), 105, 100);
    bf.apply_logs(&mut st, &logs);
    assert_eq!(st.transfers.len(), 1);
    assert_eq!(st.get_last_block(), 105);
}

#[test]
fn rate_limit_then_recovery() {
    let mut st = Store::new();
    let mut bf = Backfill::new(100, 199, 100);
    assert_eq!(bf.window(), (100, 199));
    let (gave_up, sleep) = bf.apply_error(RpcErrorKind::RateLimited);
    assert!(!gave_up);
    assert_eq!(sleep, 10_000);
    assert_eq!(bf.window(), (100, 199)); // unchanged range, unchanged batch
    let logs = vec![
        timed(transfer_log(100, 1, 0, 1, 2, 10), Some(700)),
        timed(transfer_log(150, 2, 0, 1, 2, 20), Some(750)),
        timed(transfer_log(199, 3, 0, 1, 2, 30), Some(790)),
    ];
    bf.apply_logs(&mut st, &logs);
    assert_eq!(st.transfers.len(), 3);
    assert_eq!(st.get_last_block(), 199);
    assert_eq!(bf.batch.current, 100);
}

#[test]
fn too_many_logs_halves_then_recovers() {
    let mut st = Store::new();
    let mut bf = Backfill::new(100, 199, 100);
    assert_eq!(bf.window(), (100, 199));
    let (gave_up, sleep) = bf.apply_error(RpcErrorKind::TooManyLogs);
    assert!(!gave_up);
    assert_eq!(sleep, 300);
    assert_eq!(bf.window(), (100, 149)); // batch halved to 50
    let logs: Vec<TimedLog> = (0..20)
        .map(|i| timed(transfer_log(100 + i, i as u8, 0, 1, 2, 1), Some(700 + i)))
        .collect();
    bf.apply_logs(&mut st, &logs);
    assert_eq!(st.transfers.len(), 20);
    assert_eq!(st.get_last_block(), 149);
    // the batch resets on success; the next window is clipped by the head
    assert_eq!(bf.window(), (150, 199));
    bf.apply_logs(&mut st, &vec![]);
    assert_eq!(st.get_last_block(), 199);
    assert!(bf.done());
}

#[test]
fn batch_floor_skips_one_block() {
    let mut bf = Backfill::new(100, 199, 1);
    assert_eq!(bf.window(), (100, 100));
    let (gave_up, sleep) = bf.apply_error(RpcErrorKind::TooManyLogs);
    assert!(gave_up);
    assert_eq!(sleep, 0);
    assert_eq!(bf.window(), (101, 101)); // skipped exactly one block
    assert_eq!(bf.attempt, 0);
}

#[test]
fn fatal_skips_one_block() {
    let mut bf = Backfill::new(100, 199, 100);
    let (gave_up, _) = bf.apply_error(RpcErrorKind::Fatal);
    assert!(gave_up);
    assert_eq!(bf.window(), (101, 199));
}

#[test]
fn attempts_exhaust_after_three_retries() {
    let mut bf = Backfill::new(100, 199, 100);
    let (g1, s1) = bf.apply_error(RpcErrorKind::Temporary);
    assert!(!g1);
    assert_eq!(s1, 500);
    let (g2, _) = bf.apply_error(RpcErrorKind::RateLimited);
    assert!(!g2);
    let (g3, _) = bf.apply_error(RpcErrorKind::Temporary);
    assert!(g3); // the third failed attempt gives the window up
    assert_eq!(bf.window(), (101, 199));
    assert_eq!(bf.attempt, 0);
    assert_eq!(bf.batch.current, 100);
}

#[test]
fn rate_limit_after_reduction_waits_less() {
    let mut bf = Backfill::new(100, 1999, 100);
    bf.apply_error(RpcErrorKind::TooManyLogs); // halves, remembers the reduction
    let (_, sleep) = bf.apply_error(RpcErrorKind::RateLimited);
    assert_eq!(sleep, 2_000);
    let (_, sleep2) = bf.apply_error(RpcErrorKind::RateLimited);
    assert_eq!(sleep2, 10_000); // the memory held for one response only
}

#[test]
fn empty_response_still_advances_cursor() {
    let mut st = Store::new();
    let mut bf = Backfill::new(100, 105, 100);
    bf.apply_logs(&mut st, &vec![]);
    assert_eq!(st.transfers.len(), 0);
    assert_eq!(st.get_last_block(), 105);
    assert!(bf.done());
}

#[test]
fn missing_block_time_is_not_persisted() {
    let mut st = Store::new();
    let mut bf = Backfill::new(100, 105, 100);
    let logs = vec![
        timed(transfer_log(103, 1, 0, 1, 2, 5), None),
        timed(transfer_log(104, 2, 0, 1, 2, 6), Some(800)),
    ];
    bf.apply_logs(&mut st, &logs);
    assert_eq!(st.transfers.len(), 1);
    assert_eq!(st.transfers[0].block_number, 104);
    assert_eq!(st.get_last_block(), 105);
}

#[test]
fn live_gate_holds_cursor_until_caught_up() {
    let mut st = Store::new();
    st.update_sync_state(100); // the catch-up task is still behind this
    let log = transfer_log(101, 0xaa, 0, 1, 2, 7);
    let ingested = process_live_log(&mut st, &log, Some(900), false);
    assert!(ingested);
    assert_eq!(st.transfers.len(), 1);
    assert_eq!(st.get_last_block(), 100); // not advanced: not caught up
    // catch-up finished; the next live log advances the cursor
    let log2 = transfer_log(102, 0xbb, 0, 1, 2, 8);
    let ingested2 = process_live_log(&mut st, &log2, Some(905), true);
    assert!(ingested2);
    assert_eq!(st.transfers.len(), 2);
    assert_eq!(st.get_last_block(), 102);
}

#[test]
fn live_drops_malformed_log_silently() {
    let mut st = Store::new();
    let mut log = transfer_log(101, 0xaa, 0, 1, 2, 7);
    log.topics.pop(); // two topics only
    let ingested = process_live_log(&mut st, &log, Some(900), true);
    assert!(!ingested);
    assert_eq!(st.transfers.len(), 0);
    assert_eq!(st.get_last_block(), 0);
}

#[test]
fn live_requires_all_fields() {
    let mut st = Store::new();
    let mut log = transfer_log(101, 0xaa, 0, 1, 2, 7);
    log.log_index = None;
    assert!(!process_live_log(&mut st, &log, Some(900), true));
    let log2 = transfer_log(101, 0xaa, 0, 1, 2, 7);
    assert!(!process_live_log(&mut st, &log2, None, true));
    assert_eq!(st.transfers.len(), 0);
}

#[test]
fn live_insert_is_idempotent_with_backfill() {
    let mut st = Store::new();
    let log = transfer_log(103, 0xab, 0, 1, 2, 1_000_000);
    // the catch-up task stored it first
    let mut bf = Backfill::new(100, 105, 100);
    bf.apply_logs(&mut st, &vec![timed(transfer_log(103, 0xab, 0, 1, 2, 1_000_000), Some(777))]);
    // the live stream then delivers the same event
    process_live_log(&mut st, &log, Some(777), true);
    assert_eq!(st.transfers.len(), 1);
}

#[test]
fn block_time_cache_hits_and_misses() {
    let mut c = BlockTimeCache::new();
    assert_eq!(c.lookup(Some(5)), None);
    c.store(Some(5), Some(900));
    assert_eq!(c.lookup(Some(5)), Some(Some(900)));
    assert_eq!(c.lookup(Some(6)), None);
    c.store(Some(6), None); // a failed resolution is cached too
    assert_eq!(c.lookup(Some(6)), Some(None));
    assert_eq!(c.lookup(None), None);
}

#[test]
fn config_cell_is_write_once() {
    let mut cell = ConfigCell::empty();
    let cfg = AppConfig {
        rpc_http: "http://localhost:8545".into(),
        rpc_ws: "ws://localhost:8546".into(),
        usdc_contract: "0x0000000000000000000000000000000000000001".into(),
        start_block: 100,
        db_url: "postgres://localhost/usdc".into(),
        server_port: 8080,
    };
    init(&mut cell, cfg);
    assert_eq!(get(&cell).start_block, 100);
    let other = AppConfig {
        rpc_http: "http://other".into(),
        rpc_ws: "ws://other".into(),
        usdc_contract: "0x02".into(),
        start_block: 7,
        db_url: "postgres://other".into(),
        server_port: 1,
    };
    init(&mut cell, other);
    assert_eq!(get(&cell).start_block, 100); // the first value won
}

#[test]
fn app_error_carries_its_message() {
    let e = AppError::Database("connection refused".to_string());
    assert_eq!(e.message(), "connection refused");
    let n = AppError::Network("socket closed".to_string());
    assert_eq!(n.message(), "socket closed");
    let u = AppError::Unknown("?".to_string());
    assert_eq!(u.message(), "?");
}
