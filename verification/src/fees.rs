//! Fee arithmetic for outbound transfers: the destination network fee is
//! deducted first, then the operator's business fee is taken as an integer
//! percentage of the remainder, floor-divided. No floating point touches the
//! money path.

use vstd::prelude::*;

verus! {

/// The business fee retained from a transfer: `floor(amount * pct / 100)`.
pub open spec fn business_fee_of(amount: nat, pct: nat) -> nat {
    amount * pct / 100
}

/// The amounts derived from one deposit: what remains after the network fee,
/// the business fee retained from it, and what is finally sent out.
pub struct FeeBreakdown {
    pub amount_to_transfer: u128,
    pub business_fee_amount: u128,
    pub amount_to_send: u128,
}

proof fn lemma_fee_parts(a: nat, p: nat)
    requires
        p <= 100,
    ensures
        (a / 100) * p + (a % 100) * p / 100 == a * p / 100,
        a * p / 100 <= a,
{
    let q = a / 100;
    let r = a % 100;
    assert(a == 100 * q + r) by (nonlinear_arith)
        requires q == a / 100 && r == a % 100;
    assert(a * p == (q * p) * 100 + r * p) by (nonlinear_arith)
        requires a == 100 * q + r;
    assert(((q * p) * 100 + r * p) / 100 == q * p + r * p / 100) by (nonlinear_arith);
    assert(a * p / 100 <= a * 100 / 100) by (nonlinear_arith)
        requires p <= 100;
    assert(a * 100 / 100 == a) by (nonlinear_arith);
}

/// Splits a deposit into the amount to move and the business fee retained.
///
/// Mirrors the engine's money computation: the network fee comes off the
/// gross amount first, then the percentage fee off the remainder. Returns
/// `None` when the quoted network fee exceeds the deposit itself, in which
/// case nothing should be sent.
pub fn calculate_amount_to_transfer_and_business_fee(
    amount: u128,
    network_fee: u128,
    business_fee_percentage: u64,
) -> (r: Option<FeeBreakdown>)
    requires
        business_fee_percentage <= 100,
    ensures
        match r {
            Some(f) => {
                &&& network_fee <= amount
                &&& f.amount_to_transfer == amount - network_fee
                &&& f.business_fee_amount == business_fee_of(
                    (amount - network_fee) as nat,
                    business_fee_percentage as nat,
                )
                &&& f.business_fee_amount <= f.amount_to_transfer
                &&& f.amount_to_send == f.amount_to_transfer - f.business_fee_amount
            },
            None => network_fee > amount,
        },
{
    if network_fee > amount {
        return None;
    }
    let att: u128 = amount - network_fee;
    let p: u128 = business_fee_percentage as u128;
    let q: u128 = att / 100;
    let rem: u128 = att % 100;
    proof {
        lemma_fee_parts(att as nat, p as nat);
        assert(q * p <= att * p / 100 + 0) by (nonlinear_arith)
            requires
                q == att / 100 && rem == att % 100 && p <= 100
                && (q * p + rem * p / 100 == att * p / 100);
        assert(att * p / 100 <= att);
        assert(rem < 100 && p <= 100 ==> rem * p <= 100 * 100) by (nonlinear_arith);
    }
    let fee: u128 = q * p + (rem * p) / 100;
    Some(FeeBreakdown {
        amount_to_transfer: att,
        business_fee_amount: fee,
        amount_to_send: att - fee,
    })
}

} // verus!
