use glitch_bridge::scanner::build_scan_filter;
use glitch_bridge::scanner::catch_up_commit;
use glitch_bridge::scanner::catch_up_start;
use glitch_bridge::scanner::decode_log;
use glitch_bridge::scanner::decode_logs;
use glitch_bridge::scanner::parse_range_error_hint;
use glitch_bridge::scanner::plan_block_scan;
use glitch_bridge::scanner::scan_commit;
use glitch_bridge::scanner::scan_target;
use glitch_bridge::scanner::DecodeError;
use glitch_bridge::scanner::RawLog;
use glitch_bridge::scanner::transfer_event_topic;
use glitch_bridge::store::RelayStore;

const ALICE: &str = "5GrwvaEF5zXb26Fz9rcQpDWS57CtERHpNehXCPcNoHGKutQY";

fn sample_payload(amount: u128, address: &str, declared_len: usize) -> Vec<u8> {
    let mut data = vec![0u8; 96];
    let amount_be = amount.to_be_bytes();
    data[48..64].copy_from_slice(&amount_be);
    let len_be = (declared_len as u64).to_be_bytes();
    data[88..96].copy_from_slice(&len_be);
    data.extend_from_slice(address.as_bytes());
    while data.len() % 32 != 0 {
        data.push(0);
    }
    data
}

fn sample_log(amount: u128, address: &str) -> RawLog {
    RawLog {
        data: sample_payload(amount, address, address.len()),
        topics: vec![vec![0u8; 32], {
            let mut t = vec![0u8; 12];
            t.extend_from_slice(&[0xab; 20]);
            t
        }],
        transaction_hash: vec![0x11; 32],
    }
}

#[test]
fn decodes_sample_event() {
    let d = decode_log(&sample_log(1000, ALICE)).unwrap();
    assert_eq!(d.amount, "1000");
    assert_eq!(d.glitch_address, ALICE);
    assert_eq!(
        d.eth_tx_hash,
        format!("0x{}", "11".repeat(32))
    );
    assert_eq!(
        d.eth_from_address,
        format!("0x{}", "ab".repeat(20))
    );
}

#[test]
fn address_is_truncated_to_declared_length() {
    let mut log = sample_log(5, "hello-world");
    log.data = sample_payload(5, "hello-world", 5);
    let d = decode_log(&log).unwrap();
    assert_eq!(d.glitch_address, "hello");
}

#[test]
fn malformed_logs_are_classified() {
    let mut log = sample_log(1, ALICE);
    log.transaction_hash = vec![0x11; 31];
    assert_eq!(decode_log(&log).unwrap_err(), DecodeError::BadTransactionHashLength);

    let mut log = sample_log(1, ALICE);
    log.topics.truncate(1);
    assert_eq!(decode_log(&log).unwrap_err(), DecodeError::MissingDepositorTopic);

    let mut log = sample_log(1, ALICE);
    log.topics[1] = vec![0xab; 20];
    assert_eq!(decode_log(&log).unwrap_err(), DecodeError::BadTopicLength);

    let mut log = sample_log(1, ALICE);
    log.data.truncate(95);
    assert_eq!(decode_log(&log).unwrap_err(), DecodeError::PayloadTooShort);

    let mut log = sample_log(1, ALICE);
    log.data[95] = 0xff; // declared address length far past the payload
    assert_eq!(decode_log(&log).unwrap_err(), DecodeError::AddressOutOfBounds);

    let mut log = sample_log(1, "ab");
    log.data = sample_payload(1, "ab", 2);
    log.data[96] = 0xff;
    log.data[97] = 0xfe;
    assert_eq!(decode_log(&log).unwrap_err(), DecodeError::InvalidUtf8Address);
}

#[test]
fn amounts_beyond_u128_decode_to_their_exact_decimal() {
    let mut log = sample_log(1000, ALICE);
    log.data[47] = 1; // adds 2^128 to the amount word
    let d = decode_log(&log).unwrap();
    assert_eq!(d.amount, "340282366920938463463374607431768212456");
    // such an amount is terminally rejected by the engine's parse step
    assert_eq!(glitch_bridge::numeric::parse_u128(&d.amount), None);
}

#[test]
fn batch_decode_drops_only_the_bad_logs() {
    let mut bad = sample_log(2, ALICE);
    bad.data.truncate(10);
    let logs = vec![sample_log(1, ALICE), bad, sample_log(3, ALICE)];
    let (drafts, skipped) = decode_logs(&logs);
    assert_eq!(drafts.len(), 2);
    assert_eq!(skipped, 1);
    assert_eq!(drafts[0].amount, "1");
    assert_eq!(drafts[1].amount, "3");
}

#[test]
fn event_topic_is_the_signature_digest() {
    let topic = transfer_event_topic();
    assert_eq!(topic.len(), 32);
    let expected = web3::signing::keccak256(b"TransferToGlitch(address,string,uint256)");
    assert_eq!(topic, expected.to_vec());
    let filter = build_scan_filter(&"0x1234".to_string(), 5, Some(9));
    assert_eq!(filter.topic0, expected.to_vec());
    assert_eq!(filter.address, "0x1234");
    assert_eq!(filter.from_block, 5);
    assert_eq!(filter.to_block, Some(9));
}

#[test]
fn scan_window_respects_confirmations_and_watermark() {
    assert_eq!(scan_target(100, 12), Some(88));
    assert_eq!(scan_target(5, 12), None);
    let g = plan_block_scan(50, 100, 12).unwrap();
    assert_eq!((g.from_block, g.to_block), (51, 88));
    assert!(plan_block_scan(88, 100, 12).is_none());
    assert!(plan_block_scan(90, 100, 12).is_none());
}

#[test]
fn scan_commit_is_atomic_with_watermark() {
    let mut store = RelayStore::new();
    let name = "scanner-a".to_string();
    store.exists_network_state(&name, &"net".to_string(), &"0x1".to_string());
    let mut bad = sample_log(2, ALICE);
    bad.data.truncate(10);
    let skipped = scan_commit(&mut store, &name, 88, &vec![sample_log(1, ALICE), bad]);
    assert_eq!(skipped, 1);
    assert_eq!(store.deposits.len(), 1);
    assert_eq!(store.get_last_block(&name), Some(88));
}

#[test]
fn catch_up_creates_state_then_resumes_after_watermark() {
    let mut store = RelayStore::new();
    let name = "scanner-a".to_string();
    let net = "net".to_string();
    let monitor = "0x1".to_string();
    assert_eq!(catch_up_start(&mut store, &name, &net, &monitor), None);
    assert_eq!(catch_up_start(&mut store, &name, &net, &monitor), Some(1));
    store.update_block_and_insert_txs(&name, 42, &vec![]);
    assert_eq!(catch_up_start(&mut store, &name, &net, &monitor), Some(43));
    let skipped = catch_up_commit(&mut store, &vec![sample_log(7, ALICE)]);
    assert_eq!(skipped, 0);
    assert_eq!(store.deposits.len(), 1);
    assert_eq!(store.get_last_block(&name), Some(42));
}

#[test]
fn range_hint_reads_the_first_hex_literal() {
    assert_eq!(
        parse_range_error_hint(
            "query returned more than 10000 results, try range [0x7d0, 0xbb8]"
        ),
        Some(2000)
    );
    assert_eq!(parse_range_error_hint("limit 0X1F reached"), Some(31));
    assert_eq!(parse_range_error_hint("no literal here"), None);
    assert_eq!(parse_range_error_hint("dangling 0x prefix"), None);
    assert_eq!(parse_range_error_hint("0xffffffffffffffff fits"), Some(u64::MAX));
    assert_eq!(parse_range_error_hint("0x10000000000000000 overflows"), None);
    assert_eq!(parse_range_error_hint(""), None);
}
