use glitch_bridge::engine::apply_error_marks;
use glitch_bridge::engine::commit_candidate;
use glitch_bridge::engine::plan_cycle;
use glitch_bridge::engine::record_transfer_result;
use glitch_bridge::engine::sort_pending;
use glitch_bridge::model::DepositDraft;
use glitch_bridge::model::DepositState;
use glitch_bridge::model::TxToProcess;
use glitch_bridge::store::RelayStore;
use sp_core::crypto::Ss58Codec;

const ALICE: &str = "5GrwvaEF5zXb26Fz9rcQpDWS57CtERHpNehXCPcNoHGKutQY";

fn tx(id: u128, amount: &str, address: &str) -> TxToProcess {
    TxToProcess {
        id,
        glitch_address: address.to_string(),
        amount: amount.to_string(),
    }
}

#[test]
fn ss58_addresses_decode_to_their_public_key() {
    let (marks, candidates) = plan_cycle(&vec![tx(1, "10", ALICE)], 100);
    assert!(marks.is_empty());
    let theirs = sp_core::sr25519::Public::from_ss58check(ALICE).unwrap();
    assert_eq!(candidates[0].public, theirs.0.to_vec());
    assert_eq!(candidates[0].public.len(), 32);
}

#[test]
fn pending_deposits_sort_ascending_by_amount() {
    let txs = vec![tx(1, "50", ALICE), tx(2, "30", ALICE), tx(3, "1000", ALICE)];
    let sorted = sort_pending(&txs);
    let amounts: Vec<&str> = sorted.iter().map(|t| t.amount.as_str()).collect();
    assert_eq!(amounts, vec!["30", "50", "1000"]);
}

#[test]
fn unparsable_amounts_sort_first() {
    let txs = vec![tx(1, "50", ALICE), tx(2, "bogus", ALICE), tx(3, "7", ALICE)];
    let sorted = sort_pending(&txs);
    let amounts: Vec<&str> = sorted.iter().map(|t| t.amount.as_str()).collect();
    assert_eq!(amounts, vec!["bogus", "7", "50"]);
}

#[test]
fn liquidity_gate_stops_at_the_first_unaffordable_deposit() {
    let txs = sort_pending(&vec![
        tx(1, "50", ALICE),
        tx(2, "30", ALICE),
        tx(3, "1000", ALICE),
    ]);
    let (marks, candidates) = plan_cycle(&txs, 60);
    assert!(marks.is_empty());
    let amounts: Vec<u128> = candidates.iter().map(|c| c.amount).collect();
    assert_eq!(amounts, vec![30, 50]);
}

#[test]
fn invalid_deposits_are_marked_and_skipped() {
    let txs = sort_pending(&vec![
        tx(1, "ten", ALICE),
        tx(2, "10", "not an address"),
        tx(3, "20", ALICE),
    ]);
    let (marks, candidates) = plan_cycle(&txs, 100);
    assert_eq!(marks.len(), 2);
    assert_eq!(marks[0].id, 1);
    assert_eq!(marks[0].message, "Error with amount: not a valid integer");
    assert_eq!(marks[1].id, 2);
    assert_eq!(marks[1].message, "Error with address: not a valid SS58 address");
    assert_eq!(candidates.len(), 1);
    assert_eq!(candidates[0].id, 3);
    assert_eq!(candidates[0].amount, 20);
}

#[test]
fn full_cycle_against_the_store() {
    let mut store = RelayStore::new();
    let name = "scanner-a".to_string();
    store.exists_network_state(&name, &"net".to_string(), &"0x1".to_string());
    store.insert_txs(&vec![
        DepositDraft {
            eth_tx_hash: "0x01".to_string(),
            eth_from_address: "0xaa".to_string(),
            amount: "50".to_string(),
            glitch_address: ALICE.to_string(),
        },
        DepositDraft {
            eth_tx_hash: "0x02".to_string(),
            eth_from_address: "0xbb".to_string(),
            amount: "30".to_string(),
            glitch_address: ALICE.to_string(),
        },
        DepositDraft {
            eth_tx_hash: "0x03".to_string(),
            eth_from_address: "0xcc".to_string(),
            amount: "1000".to_string(),
            glitch_address: ALICE.to_string(),
        },
    ]);

    let pending = sort_pending(&store.txs_to_process());
    let (marks, candidates) = plan_cycle(&pending, 60);
    apply_error_marks(&mut store, &marks);
    for cand in &candidates {
        let order = commit_candidate(&mut store, &name, cand, 0, 2).unwrap();
        assert_eq!(order.business_fee_amount, cand.amount * 2 / 100);
        assert_eq!(order.amount_to_send, cand.amount - order.business_fee_amount);
        record_transfer_result(
            &mut store,
            order.id,
            Some(format!("0xglitch{}", order.id)),
            order.business_fee_amount,
            order.business_fee_percentage,
        );
    }

    // 30 and 50 settled, 1000 left waiting for a better-funded cycle
    assert_eq!(store.deposits[0].state, DepositState::Processed); // amount 50
    assert_eq!(store.deposits[1].state, DepositState::Processed); // amount 30
    assert_eq!(store.deposits[2].state, DepositState::ToProcess); // amount 1000
    assert_eq!(store.deposits[2].amount, "1000");
    // 0 fee of 30 is 0.6 -> floor 0; of 50 is 1
    assert_eq!(store.get_fee_counter(&name), Some(0 + 1));
    assert_eq!(store.deposits[0].business_fee_amount, Some(1));
    assert_eq!(store.deposits[0].business_fee_percentage, Some(2));
    assert!(store.deposits[0].glitch_tx_hash.is_some());
}

#[test]
fn failed_submission_leaves_the_deposit_in_flight() {
    let mut store = RelayStore::new();
    let name = "scanner-a".to_string();
    store.exists_network_state(&name, &"net".to_string(), &"0x1".to_string());
    store.insert_txs(&vec![DepositDraft {
        eth_tx_hash: "0x01".to_string(),
        eth_from_address: "0xaa".to_string(),
        amount: "100".to_string(),
        glitch_address: ALICE.to_string(),
    }]);
    let pending = store.txs_to_process();
    let (_, candidates) = plan_cycle(&pending, 1000);
    let order = commit_candidate(&mut store, &name, &candidates[0], 0, 10).unwrap();
    record_transfer_result(&mut store, order.id, None, order.business_fee_amount, 10);
    assert_eq!(store.deposits[0].state, DepositState::Processing);
    assert_eq!(store.deposits[0].glitch_tx_hash, None);
}

#[test]
fn network_fee_above_amount_skips_the_transfer() {
    let mut store = RelayStore::new();
    let name = "scanner-a".to_string();
    store.exists_network_state(&name, &"net".to_string(), &"0x1".to_string());
    store.insert_txs(&vec![DepositDraft {
        eth_tx_hash: "0x01".to_string(),
        eth_from_address: "0xaa".to_string(),
        amount: "10".to_string(),
        glitch_address: ALICE.to_string(),
    }]);
    let pending = store.txs_to_process();
    let (_, candidates) = plan_cycle(&pending, 1000);
    assert!(commit_candidate(&mut store, &name, &candidates[0], 11, 2).is_none());
    assert_eq!(store.deposits[0].state, DepositState::ToProcess);
    assert_eq!(store.get_fee_counter(&name), Some(0));
}
