//! The fee settlement scheduler's decision: pay the accumulated business
//! fee to the treasury once the configured interval has elapsed since the
//! last payment, only when something accrued and the signer can cover it,
//! and reset the counter only together with recording the confirmed
//! payment.

use vstd::prelude::*;

use crate::model::apply_op;
use crate::model::view_opt_string;
use crate::model::FeePaymentV;
use crate::model::StoreModel;
use crate::model::StoreOp;

verus! {

/// The epoch seconds a stored payment time parses to, where it is a
/// well-formed `YYYY-MM-DD hh:mm:ss` timestamp.
pub uninterp spec fn db_time_secs(s: Seq<char>) -> Option<i64>;

/// Relies on `chrono::NaiveDateTime::parse_from_str` with the store's
/// `%Y-%m-%d %H:%M:%S` format, and on `timestamp` of the parsed value taken
/// as UTC: both depend on the text alone.
#[verifier::external_body]
fn parse_db_time(s: &str) -> (r: Option<i64>)
    ensures
        r == db_time_secs(s@),
{
    chrono::NaiveDateTime::parse_from_str(s, "%Y-%m-%d %H:%M:%S").ok().map(
        |dt| dt.and_utc().timestamp(),
    )
}

/// What one scheduler tick does.
#[derive(Clone, Copy, Debug, PartialEq, Eq, Structural)]
pub enum SettleAction {
    /// The stored last-payment time does not parse; nothing is paid.
    BadTimestamp,
    /// The interval since the last payment has not elapsed.
    NotDue,
    /// Nothing has accrued since the last settlement.
    NothingAccrued,
    /// The signer cannot cover the accrued fee; retried next tick.
    InsufficientFunds,
    /// Pay the whole accrued fee to the treasury.
    Pay { amount: u128 },
}

/// The tick decision. A missing last payment means a payout is due
/// immediately; otherwise one is due once `now - last >= interval`. A due
/// tick pays the accrued amount when it is positive and covered by the
/// signer's balance.
pub open spec fn settle_decision_spec(
    last_time: Option<Seq<char>>,
    now_secs: i64,
    interval_secs: i64,
    accumulated: u128,
    balance: u128,
) -> SettleAction {
    let parsed = match last_time {
        None => Some(None),
        Some(s) => match db_time_secs(s) {
            None => None,
            Some(t) => Some(Some(t)),
        },
    };
    match parsed {
        None => SettleAction::BadTimestamp,
        Some(last) => {
            let due = match last {
                None => true,
                Some(t) => now_secs - t >= interval_secs,
            };
            if !due {
                SettleAction::NotDue
            } else if accumulated == 0 {
                SettleAction::NothingAccrued
            } else if accumulated > balance {
                SettleAction::InsufficientFunds
            } else {
                SettleAction::Pay { amount: accumulated }
            }
        },
    }
}

/// Whether the settlement interval has elapsed since the recorded last
/// payment; nothing where that record does not parse.
pub fn is_time_to_pay_fee(last_time: &Option<String>, now_secs: i64, interval_secs: i64) -> (r:
    Option<bool>)
    ensures
        match r {
            Some(b) => match view_opt_string(*last_time) {
                None => b == true,
                Some(s) => db_time_secs(s) matches Some(t) && b == (now_secs - t
                    >= interval_secs),
            },
            None => view_opt_string(*last_time) matches Some(s) && db_time_secs(s) is None,
        },
{
    match last_time {
        None => Some(true),
        Some(s) => match parse_db_time(s.as_str()) {
            None => None,
            Some(t) => Some((now_secs as i128) - (t as i128) >= (interval_secs as i128)),
        },
    }
}

/// Decides one scheduler tick, per `settle_decision_spec`.
pub fn settle_decision(
    last_time: &Option<String>,
    now_secs: i64,
    interval_secs: i64,
    accumulated: u128,
    balance: u128,
) -> (r: SettleAction)
    ensures
        r == settle_decision_spec(
            view_opt_string(*last_time),
            now_secs,
            interval_secs,
            accumulated,
            balance,
        ),
{
    let due = match is_time_to_pay_fee(last_time, now_secs, interval_secs) {
        None => {
            return SettleAction::BadTimestamp;
        },
        Some(b) => b,
    };
    if !due {
        SettleAction::NotDue
    } else if accumulated == 0 {
        SettleAction::NothingAccrued
    } else if accumulated > balance {
        SettleAction::InsufficientFunds
    } else {
        SettleAction::Pay { amount: accumulated }
    }
}

/// A tick with nothing accrued never pays: together with the atomic
/// reset-on-record, at most one payout can follow one accrual period.
pub proof fn lemma_zero_accrual_never_pays(
    last_time: Option<Seq<char>>,
    now_secs: i64,
    interval_secs: i64,
    balance: u128,
)
    ensures
        !(settle_decision_spec(last_time, now_secs, interval_secs, 0, balance) is Pay),
{
}

/// Settlement gating: with the last payment recorded at `t0`, no tick
/// before `t0 + interval` pays anything; a tick at or past it with a
/// positive, covered accrual pays exactly that accrual; and the settlement
/// commit appends the payment record and resets the scanner's counter to
/// zero as one operation.
pub proof fn lemma_settlement_gating(
    last_time: Seq<char>,
    t0: i64,
    now_secs: i64,
    interval_secs: i64,
    accumulated: u128,
    balance: u128,
    m: StoreModel,
    name: Seq<char>,
    glitch_tx_hash: Seq<char>,
    time_text: Seq<char>,
)
    requires
        db_time_secs(last_time) == Some(t0),
    ensures
        now_secs - t0 < interval_secs ==> settle_decision_spec(
            Some(last_time),
            now_secs,
            interval_secs,
            accumulated,
            balance,
        ) == SettleAction::NotDue,
        now_secs - t0 >= interval_secs && accumulated > 0 && accumulated <= balance
            ==> settle_decision_spec(
            Some(last_time),
            now_secs,
            interval_secs,
            accumulated,
            balance,
        ) == (SettleAction::Pay { amount: accumulated }),
        apply_op(
            m,
            StoreOp::RecordFeePayment {
                name: name,
                glitch_tx_hash: glitch_tx_hash,
                amount: accumulated,
                time: time_text,
            },
        ).fee_payments == m.fee_payments.push(
            FeePaymentV { glitch_tx_hash: glitch_tx_hash, amount: accumulated, time: time_text },
        ),
        forall|j: int|
            0 <= j < m.scan_states.len() && (#[trigger] m.scan_states[j]).name == name
                ==> apply_op(
                m,
                StoreOp::RecordFeePayment {
                    name: name,
                    glitch_tx_hash: glitch_tx_hash,
                    amount: accumulated,
                    time: time_text,
                },
            ).scan_states[j].accumulated_fees == 0,
{
}

} // verus!
