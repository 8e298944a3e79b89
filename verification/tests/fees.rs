use glitch_bridge::fees::calculate_amount_to_transfer_and_business_fee;

#[test]
fn two_percent_of_thousand() {
    let f = calculate_amount_to_transfer_and_business_fee(1000, 0, 2).unwrap();
    assert_eq!(f.amount_to_transfer, 1000);
    assert_eq!(f.business_fee_amount, 20);
    assert_eq!(f.amount_to_send, 980);
}

#[test]
fn two_percent_of_999_floors() {
    let f = calculate_amount_to_transfer_and_business_fee(999, 0, 2).unwrap();
    assert_eq!(f.business_fee_amount, 19);
    assert_eq!(f.amount_to_send, 980);
}

#[test]
fn network_fee_comes_off_first() {
    let f = calculate_amount_to_transfer_and_business_fee(1000, 100, 10).unwrap();
    assert_eq!(f.amount_to_transfer, 900);
    assert_eq!(f.business_fee_amount, 90);
    assert_eq!(f.amount_to_send, 810);
}

#[test]
fn fee_exceeding_amount_is_refused() {
    assert!(calculate_amount_to_transfer_and_business_fee(99, 100, 2).is_none());
}

#[test]
fn hundred_percent_sends_nothing() {
    let f = calculate_amount_to_transfer_and_business_fee(1234, 0, 100).unwrap();
    assert_eq!(f.business_fee_amount, 1234);
    assert_eq!(f.amount_to_send, 0);
}

#[test]
fn zero_percent_keeps_everything() {
    let f = calculate_amount_to_transfer_and_business_fee(1234, 34, 0).unwrap();
    assert_eq!(f.amount_to_transfer, 1200);
    assert_eq!(f.business_fee_amount, 0);
    assert_eq!(f.amount_to_send, 1200);
}

#[test]
fn large_amount_has_no_precision_loss() {
    let amount: u128 = 123_456_789_012_345_678_901_234_567_890;
    let f = calculate_amount_to_transfer_and_business_fee(amount, 0, 3).unwrap();
    assert_eq!(f.business_fee_amount, amount * 3 / 100);
}
