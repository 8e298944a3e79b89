use glitch_bridge::model::DepositDraft;
use glitch_bridge::model::DepositState;
use glitch_bridge::store::RelayStore;

fn draft(hash: &str, amount: &str, address: &str) -> DepositDraft {
    DepositDraft {
        eth_tx_hash: hash.to_string(),
        eth_from_address: "0xaaaaaaaaaaaaaaaaaaaaaaaaaaaaaaaaaaaaaaaa".to_string(),
        amount: amount.to_string(),
        glitch_address: address.to_string(),
    }
}

#[test]
fn scan_state_created_once() {
    let mut store = RelayStore::new();
    let name = "scanner-a".to_string();
    let network = "testnet".to_string();
    let monitor = "0x1234".to_string();
    assert!(!store.exists_network_state(&name, &network, &monitor));
    assert!(store.exists_network_state(&name, &network, &monitor));
    assert_eq!(store.scan_states.len(), 1);
    assert_eq!(store.get_last_block(&name), Some(0));
    assert_eq!(store.get_fee_counter(&name), Some(0));
    assert_eq!(store.get_last_block(&"other".to_string()), None);
}

#[test]
fn duplicate_hashes_are_inserted_once() {
    let mut store = RelayStore::new();
    let batch = vec![
        draft("0x01", "10", "addr-one"),
        draft("0x02", "20", "addr-two"),
        draft("0x01", "10", "addr-one"),
    ];
    store.insert_txs(&batch);
    assert_eq!(store.deposits.len(), 2);
    assert_eq!(store.deposits[0].eth_tx_hash, "0x01");
    assert_eq!(store.deposits[1].eth_tx_hash, "0x02");
    assert_eq!(store.deposits[0].id, 0);
    assert_eq!(store.deposits[1].id, 1);
}

#[test]
fn repeated_catch_up_inserts_nothing_new() {
    let mut store = RelayStore::new();
    let batch = vec![draft("0x01", "10", "a"), draft("0x02", "20", "b")];
    store.insert_txs(&batch);
    let ids: Vec<u128> = store.deposits.iter().map(|d| d.id).collect();
    store.insert_txs(&batch);
    store.insert_txs(&batch);
    assert_eq!(store.deposits.len(), 2);
    let ids_after: Vec<u128> = store.deposits.iter().map(|d| d.id).collect();
    assert_eq!(ids, ids_after);
    assert_eq!(store.next_deposit_id, 2);
}

#[test]
fn watermark_never_regresses() {
    let mut store = RelayStore::new();
    let name = "scanner-a".to_string();
    store.exists_network_state(&name, &"net".to_string(), &"0x1".to_string());
    store.update_block_and_insert_txs(&name, 90, &vec![draft("0x01", "1", "a")]);
    assert_eq!(store.get_last_block(&name), Some(90));
    assert_eq!(store.deposits.len(), 1);
    store.update_block_and_insert_txs(&name, 80, &vec![draft("0x02", "2", "b")]);
    assert_eq!(store.get_last_block(&name), Some(90));
    assert_eq!(store.deposits.len(), 2);
    store.update_block_and_insert_txs(&name, 120, &vec![]);
    assert_eq!(store.get_last_block(&name), Some(120));
}

#[test]
fn three_records_terminal_states_stick() {
    let mut store = RelayStore::new();
    store.insert_txs(&vec![
        draft("0x01", "10", "a"),
        draft("0x02", "20", "b"),
        draft("0x03", "30", "c"),
    ]);
    store.save_with_error(0, "Error with address: not a valid SS58 address".to_string());
    store.update_tx_to_processing(1);
    store.update_tx(1, "0xfeed".to_string(), 2, 2);
    assert_eq!(store.deposits[0].state, DepositState::Error);
    assert_eq!(store.deposits[1].state, DepositState::Processed);
    assert_eq!(store.deposits[2].state, DepositState::ToProcess);

    // later cycles cannot move a terminal record again
    store.update_tx_to_processing(0);
    store.update_tx_to_processing(1);
    store.update_tx(0, "0xbad".to_string(), 9, 9);
    store.save_with_error(1, "late".to_string());
    assert_eq!(store.deposits[0].state, DepositState::Error);
    assert_eq!(
        store.deposits[0].error_message.as_deref(),
        Some("Error with address: not a valid SS58 address")
    );
    assert_eq!(store.deposits[0].glitch_tx_hash, None);
    assert_eq!(store.deposits[1].state, DepositState::Processed);
    assert_eq!(store.deposits[1].glitch_tx_hash.as_deref(), Some("0xfeed"));
    assert_eq!(store.deposits[1].business_fee_amount, Some(2));

    // the pending view shows only the live record
    let pending = store.txs_to_process();
    assert_eq!(pending.len(), 1);
    assert_eq!(pending[0].id, 2);
    assert_eq!(pending[0].amount, "30");
}

#[test]
fn fee_counter_accrues_and_settles() {
    let mut store = RelayStore::new();
    let name = "scanner-a".to_string();
    store.exists_network_state(&name, &"net".to_string(), &"0x1".to_string());
    store.increment_fee_counter(&name, 300);
    store.increment_fee_counter(&name, 200);
    assert_eq!(store.get_fee_counter(&name), Some(500));
    assert_eq!(store.get_fee_last_time(), None);
    store.insert_tx_fee(&name, "0xdead".to_string(), 500, "2024-01-02 03:04:05".to_string());
    assert_eq!(store.get_fee_counter(&name), Some(0));
    assert_eq!(store.get_fee_last_time(), Some("2024-01-02 03:04:05".to_string()));
    assert_eq!(store.fee_payments.len(), 1);
    assert_eq!(store.fee_payments[0].amount, 500);
    store.modify_fee_counter(&name, 77);
    assert_eq!(store.get_fee_counter(&name), Some(77));
}
