use glitch_bridge::settle::is_time_to_pay_fee;
use glitch_bridge::settle::settle_decision;
use glitch_bridge::settle::SettleAction;
use glitch_bridge::store::RelayStore;

// 2024-01-02 03:04:05 UTC
const T0: i64 = 1_704_164_645;
const T0_TEXT: &str = "2024-01-02 03:04:05";
const DAY: i64 = 86_400;

#[test]
fn stored_times_parse_to_the_exact_second() {
    let last = Some(T0_TEXT.to_string());
    // one second before the interval elapses: not due; at the boundary: due
    assert_eq!(
        settle_decision(&last, T0 + DAY - 1, DAY, 500, 1000),
        SettleAction::NotDue
    );
    assert_eq!(
        settle_decision(&last, T0 + DAY, DAY, 500, 1000),
        SettleAction::Pay { amount: 500 }
    );
}

#[test]
fn nothing_is_paid_before_the_interval() {
    let last = Some(T0_TEXT.to_string());
    for dt in [0, 1, DAY / 2, DAY - 1] {
        assert_eq!(
            settle_decision(&last, T0 + dt, DAY, 500, 1000),
            SettleAction::NotDue
        );
    }
}

#[test]
fn due_tick_requires_accrual_and_funds() {
    let last = Some(T0_TEXT.to_string());
    let now = T0 + DAY;
    assert_eq!(
        settle_decision(&last, now, DAY, 0, 1000),
        SettleAction::NothingAccrued
    );
    assert_eq!(
        settle_decision(&last, now, DAY, 500, 499),
        SettleAction::InsufficientFunds
    );
    assert_eq!(
        settle_decision(&last, now, DAY, 500, 500),
        SettleAction::Pay { amount: 500 }
    );
}

#[test]
fn missing_history_means_due_immediately() {
    assert_eq!(
        settle_decision(&None, T0, DAY, 500, 1000),
        SettleAction::Pay { amount: 500 }
    );
    assert_eq!(is_time_to_pay_fee(&None, T0, DAY), Some(true));
}

#[test]
fn unreadable_history_pays_nothing() {
    let last = Some("not a timestamp".to_string());
    assert_eq!(
        settle_decision(&last, T0, DAY, 500, 1000),
        SettleAction::BadTimestamp
    );
    assert_eq!(is_time_to_pay_fee(&last, T0, DAY), None);
}

#[test]
fn settlement_resets_counter_and_records_payment() {
    let mut store = RelayStore::new();
    let name = "scanner-a".to_string();
    store.exists_network_state(&name, &"net".to_string(), &"0x1".to_string());
    store.increment_fee_counter(&name, 500);

    let last = store.get_fee_last_time();
    let now = T0 + DAY;
    let accumulated = store.get_fee_counter(&name).unwrap();
    let action = settle_decision(&last, now, DAY, accumulated, 10_000);
    assert_eq!(action, SettleAction::Pay { amount: 500 });

    // the transfer is confirmed outside; only then is the commit recorded
    store.insert_tx_fee(&name, "0xsettle".to_string(), 500, "2024-01-03 03:04:05".to_string());
    assert_eq!(store.get_fee_counter(&name), Some(0));
    assert_eq!(store.fee_payments.len(), 1);
    assert_eq!(store.fee_payments[0].amount, 500);
    assert_eq!(
        store.get_fee_last_time(),
        Some("2024-01-03 03:04:05".to_string())
    );

    // the next tick within the new interval does nothing
    let last = store.get_fee_last_time();
    assert_eq!(
        settle_decision(&last, now + 1, DAY, store.get_fee_counter(&name).unwrap(), 10_000),
        SettleAction::NotDue
    );
}
