use usdc_indexer::batch::BatchSizer;
use usdc_indexer::classify::{classify_rpc_error, RpcErrorKind};
use usdc_indexer::decode::{decode_transfer, RawLog};
use usdc_indexer::hex::hex_0x;
use usdc_indexer::topic::{is_transfer_topic, transfer_event_topic};

fn addr_topic(last: u8) -> Vec<u8> {
    let mut t = vec![0u8; 32];
    t[31] = last;
    t
}

fn amount_data(amount: u128) -> Vec<u8> {
    let mut d = vec![0u8; 32];
    let be = amount.to_be_bytes();
    d[16..32].copy_from_slice(&be);
    d
}

fn transfer_log(block: u64, tx_last: u8, log_index: u64, from: u8, to: u8, amount: u128) -> RawLog {
    let mut tx = vec![0u8; 32];
    tx[31] = tx_last;
    RawLog {
        block_number: Some(block),
        transaction_hash: Some(tx),
        log_index: Some(log_index),
        topics: vec![transfer_event_topic(), addr_topic(from), addr_topic(to)],
        data: amount_data(amount),
    }
}

#[test]
fn decode_roundtrip_exact() {
    let log = transfer_log(103, 0xab, 0, 0x01, 0x02, 1_000_000);
    let d = decode_transfer(&log).expect("a valid Transfer log must decode");
    let mut from = vec![0u8; 20];
    from[19] = 0x01;
    let mut to = vec![0u8; 20];
    to[19] = 0x02;
    assert_eq!(d.from, from);
    assert_eq!(d.to, to);
    assert_eq!(d.amount, 1_000_000u128);
}

#[test]
fn decode_amount_is_big_endian() {
    let mut log = transfer_log(1, 1, 0, 1, 2, 0);
    log.data = vec![0u8; 32];
    log.data[30] = 0x01;
    log.data[31] = 0x02;
    let d = decode_transfer(&log).unwrap();
    assert_eq!(d.amount, 0x0102u128);
}

#[test]
fn decode_rejects_two_topics() {
    let mut log = transfer_log(103, 0xab, 0, 1, 2, 5);
    log.topics.pop();
    assert!(decode_transfer(&log).is_none());
}

#[test]
fn decode_rejects_four_topics() {
    let mut log = transfer_log(103, 0xab, 0, 1, 2, 5);
    log.topics.push(addr_topic(9));
    assert!(decode_transfer(&log).is_none());
}

#[test]
fn decode_rejects_short_data() {
    let mut log = transfer_log(103, 0xab, 0, 1, 2, 5);
    log.data = vec![0u8; 31];
    assert!(decode_transfer(&log).is_none());
}

#[test]
fn decode_rejects_long_data() {
    let mut log = transfer_log(103, 0xab, 0, 1, 2, 5);
    log.data = vec![0u8; 33];
    assert!(decode_transfer(&log).is_none());
}

#[test]
fn decode_rejects_amount_beyond_mantissa() {
    let mut log = transfer_log(103, 0xab, 0, 1, 2, 5);
    log.data = vec![0u8; 32];
    log.data[19] = 1; // bit 96 set: one past the 96-bit mantissa
    assert!(decode_transfer(&log).is_none());
    let mut log2 = transfer_log(103, 0xab, 0, 1, 2, 5);
    log2.data = vec![0u8; 32];
    log2.data[20] = 0xff; // highest mantissa byte: still fine
    assert!(decode_transfer(&log2).is_some());
}

#[test]
fn hex_is_lowercase_prefixed() {
    assert_eq!(hex_0x(&[0xab, 0x01, 0xef]), "0xab01ef");
    assert_eq!(hex_0x(&[]), "0x");
    let mut addr = vec![0u8; 20];
    addr[19] = 0x01;
    assert_eq!(hex_0x(&addr), "0x0000000000000000000000000000000000000001");
}

#[test]
fn transfer_topic_is_the_known_digest() {
    let topic = transfer_event_topic();
    assert_eq!(
        hex_0x(&topic),
        "0xddf252ad1be2c89b69c2b068fc378daa952ba7f163c4a11628f55a4df523b3ef"
    );
}

#[test]
fn topic_comparison() {
    let same = transfer_event_topic();
    assert!(is_transfer_topic(&same));
    let other = addr_topic(7);
    assert!(!is_transfer_topic(&other));
    let short = vec![0u8; 31];
    assert!(!is_transfer_topic(&short));
}

#[test]
fn classify_known_phrases() {
    assert_eq!(
        classify_rpc_error("429 Too Many Requests from provider"),
        RpcErrorKind::RateLimited
    );
    assert_eq!(
        classify_rpc_error("query returned more than 10000 results"),
        RpcErrorKind::TooManyLogs
    );
    assert_eq!(classify_rpc_error("connection timeout"), RpcErrorKind::Temporary);
    assert_eq!(
        classify_rpc_error("Temporary failure in name resolution"),
        RpcErrorKind::Temporary
    );
    assert_eq!(classify_rpc_error("invalid block range"), RpcErrorKind::Fatal);
    assert_eq!(classify_rpc_error(""), RpcErrorKind::Fatal);
}

#[test]
fn batch_sizer_halves_to_floor_and_resets() {
    let mut b = BatchSizer::new(100);
    let widths: Vec<u64> = (0..8)
        .map(|_| {
            b.halve();
            b.current
        })
        .collect();
    assert_eq!(widths, vec![50, 25, 12, 6, 3, 1, 1, 1]);
    assert!(b.is_min());
    b.reset();
    assert_eq!(b.current, 100);
    assert!(!b.is_min());
}
