//! The transfer engine's per-cycle logic: order the waiting deposits by
//! amount, validate each against the declared destination and amount, stop
//! at the first deposit the signer's balance cannot cover, and drive the
//! committed ones through the deposit lifecycle.

use vstd::prelude::*;

use crate::fees::business_fee_of;
use crate::fees::calculate_amount_to_transfer_and_business_fee;
use crate::model::apply_op;
use crate::model::StoreOp;
use crate::model::StoreModel;
use crate::model::TxToProcess;
use crate::model::TxToProcessV;
use crate::numeric::parse_u128;
use crate::numeric::parse_u128_chars;
use crate::store::RelayStore;

verus! {

/// The raw public key an SS58 destination address decodes to, where it is
/// well formed.
pub uninterp spec fn ss58_public_of(s: Seq<char>) -> Option<Seq<u8>>;

/// Relies on `sp_core::sr25519::Public::from_str` (SS58 decoding with its
/// blake2 checksum): succeeds exactly on a well-formed address and yields
/// its 32 public key bytes. The decoding depends on the string alone given
/// the process-wide default address format, which this library never
/// changes.
#[verifier::external_body]
pub(crate) fn parse_glitch_address(s: &str) -> (r: Option<Vec<u8>>)
    ensures
        match r {
            Some(pk) => ss58_public_of(s@) == Some(pk@) && pk@.len() == 32,
            None => ss58_public_of(s@) is None,
        },
{
    match <sp_core::sr25519::Public as core::str::FromStr>::from_str(s) {
        Ok(p) => Some(p.0.to_vec()),
        Err(_) => None,
    }
}

/// The engine's ordering key: the deposit amount, where it parses.
pub open spec fn amount_key(t: TxToProcessV) -> Option<u128> {
    parse_u128_chars(t.amount)
}

/// Engine order: unparsable amounts first (they are rejected immediately and
/// cost nothing), then ascending by amount, so the most deposits are served
/// before liquidity runs out.
pub open spec fn key_le(a: TxToProcessV, b: TxToProcessV) -> bool {
    match amount_key(a) {
        None => true,
        Some(x) => match amount_key(b) {
            None => false,
            Some(y) => x <= y,
        },
    }
}

proof fn lemma_key_le_total(a: TxToProcessV, b: TxToProcessV)
    ensures
        key_le(a, b) || key_le(b, a),
{
}

proof fn lemma_key_le_trans(a: TxToProcessV, b: TxToProcessV, c: TxToProcessV)
    requires
        key_le(a, b),
        key_le(b, c),
    ensures
        key_le(a, c),
{
}

fn clone_tx(t: &TxToProcess) -> (r: TxToProcess)
    ensures
        r@ == t@,
{
    let r = TxToProcess {
        id: t.id,
        glitch_address: t.glitch_address.clone(),
        amount: t.amount.clone(),
    };
    assert(r@ =~= t@);
    r
}

fn key_le_exec(a: &TxToProcess, b: &TxToProcess) -> (r: bool)
    ensures
        r == key_le(a@, b@),
{
    match parse_u128(a.amount.as_str()) {
        None => true,
        Some(x) => match parse_u128(b.amount.as_str()) {
            None => false,
            Some(y) => x <= y,
        },
    }
}

/// Sorts the waiting deposits into engine order: a permutation of the input,
/// ascending by amount, unparsable amounts first.
pub fn sort_pending(txs: &Vec<TxToProcess>) -> (r: Vec<TxToProcess>)
    ensures
        r@.map_values(|t: TxToProcess| t@).to_multiset() == txs@.map_values(
            |t: TxToProcess| t@,
        ).to_multiset(),
        r@.len() == txs@.len(),
        forall|i: int, j: int| 0 <= i < j < r@.len() ==> key_le(r@[i]@, r@[j]@),
{
    broadcast use vstd::seq_lib::group_to_multiset_ensures;

    let ghost all = txs@.map_values(|t: TxToProcess| t@);
    let mut out: Vec<TxToProcess> = Vec::new();
    proof {
        assert(out@.map_values(|t: TxToProcess| t@) =~= Seq::<TxToProcessV>::empty());
        assert(all.take(0) =~= Seq::<TxToProcessV>::empty());
        assert(Seq::<TxToProcessV>::empty().to_multiset() =~= out@.map_values(
            |t: TxToProcess| t@,
        ).to_multiset());
    }
    let n = txs.len();
    let mut i: usize = 0;
    while i < n
        invariant
            0 <= i <= n,
            n == txs@.len(),
            all == txs@.map_values(|t: TxToProcess| t@),
            out@.len() == i,
            out@.map_values(|t: TxToProcess| t@).to_multiset() == all.take(i as int).to_multiset(),
            forall|p: int, q: int| 0 <= p < q < out@.len() ==> key_le(out@[p]@, out@[q]@),
        decreases n - i,
    {
        broadcast use vstd::seq_lib::group_to_multiset_ensures;

        let x = clone_tx(&txs[i]);
        let ghost xv = x@;
        let m = out.len();
        let mut p: usize = 0;
        loop
            invariant_except_break
                0 <= p <= m,
                m == out@.len(),
                xv == x@,
                forall|q: int| 0 <= q < p ==> key_le((#[trigger] out@[q])@, xv),
                forall|pp: int, qq: int| 0 <= pp < qq < out@.len() ==> key_le(out@[pp]@, out@[qq]@),
            ensures
                0 <= p <= m,
                m == out@.len(),
                xv == x@,
                forall|q: int| 0 <= q < p ==> key_le((#[trigger] out@[q])@, xv),
                forall|pp: int, qq: int| 0 <= pp < qq < out@.len() ==> key_le(out@[pp]@, out@[qq]@),
                p == m || !key_le(out@[p as int]@, xv),
            decreases m - p,
        {
            if p == m {
                break ;
            }
            if !key_le_exec(&out[p], &x) {
                break ;
            }
            p = p + 1;
        }
        let ghost out_before = out@;
        proof {
            if p < m {
                lemma_key_le_total(out_before[p as int]@, xv);
            }
        }
        out.insert(p, x);
        proof {
            let f = |t: TxToProcess| t@;
            assert(out@ =~= out_before.take(p as int) + seq![
                out@[p as int],
            ] + out_before.skip(p as int));
            assert forall|pp: int, qq: int|
                0 <= pp < qq < out@.len() implies key_le(out@[pp]@, out@[qq]@) by {
                if pp < p && qq < p {
                    assert(out@[pp] == out_before[pp]);
                    assert(out@[qq] == out_before[qq]);
                } else if pp < p && qq == p {
                    assert(out@[pp] == out_before[pp]);
                    assert(out@[qq]@ == xv);
                } else if pp < p && qq > p {
                    assert(out@[pp] == out_before[pp]);
                    assert(out@[qq] == out_before[qq - 1]);
                } else if pp == p && qq > p {
                    assert(out@[pp]@ == xv);
                    assert(out@[qq] == out_before[qq - 1]);
                    if p < m {
                        lemma_key_le_trans(xv, out_before[p as int]@, out_before[qq - 1]@);
                    }
                } else if pp > p {
                    assert(out@[pp] == out_before[pp - 1]);
                    assert(out@[qq] == out_before[qq - 1]);
                }
            }
            assert(out@.map_values(f) =~= out_before.map_values(f).insert(p as int, xv));
            assert(out_before.map_values(f).insert(p as int, xv).to_multiset()
                =~= out_before.map_values(f).to_multiset().insert(xv)) by {
                vstd::seq_lib::lemma_multiset_commutative(
                    out_before.map_values(f).take(p as int).push(xv),
                    out_before.map_values(f).skip(p as int),
                );
                vstd::seq_lib::lemma_multiset_commutative(
                    out_before.map_values(f).take(p as int),
                    out_before.map_values(f).skip(p as int),
                );
                assert(out_before.map_values(f).insert(p as int, xv) =~= out_before.map_values(
                    f,
                ).take(p as int).push(xv) + out_before.map_values(f).skip(p as int));
                assert(out_before.map_values(f).take(p as int) + out_before.map_values(f).skip(
                    p as int,
                ) =~= out_before.map_values(f));
            }
            assert(all.take(i as int + 1) =~= all.take(i as int).push(all[i as int]));
            assert(all[i as int] == xv);
        }
        i = i + 1;
    }
    proof {
        assert(all.take(n as int) =~= all);
    }
    out
}

/// The message recorded on a deposit whose amount is not a decimal integer.
pub open spec fn amount_error_message() -> Seq<char> {
    "Error with amount: not a valid integer"@
}

/// The message recorded on a deposit whose destination address is invalid.
pub open spec fn address_error_message() -> Seq<char> {
    "Error with address: not a valid SS58 address"@
}

/// A deposit the cycle rejects, with the message to record.
#[derive(Debug)]
pub struct ErrorMark {
    pub id: u128,
    pub message: String,
}

#[verifier::ext_equal]
pub struct ErrorMarkV {
    pub id: u128,
    pub message: Seq<char>,
}

impl View for ErrorMark {
    type V = ErrorMarkV;

    open spec fn view(&self) -> ErrorMarkV {
        ErrorMarkV { id: self.id, message: self.message@ }
    }
}

/// A validated deposit the cycle will execute: its parsed amount and the
/// decoded destination key.
#[derive(Debug)]
pub struct Candidate {
    pub id: u128,
    pub glitch_address: String,
    pub public: Vec<u8>,
    pub amount: u128,
}

#[verifier::ext_equal]
pub struct CandidateV {
    pub id: u128,
    pub glitch_address: Seq<char>,
    pub public: Seq<u8>,
    pub amount: u128,
}

impl View for Candidate {
    type V = CandidateV;

    open spec fn view(&self) -> CandidateV {
        CandidateV {
            id: self.id,
            glitch_address: self.glitch_address@,
            public: self.public@,
            amount: self.amount,
        }
    }
}

/// What one cycle decides for an ordered run of waiting deposits.
#[verifier::ext_equal]
pub struct CyclePlanV {
    pub marks: Seq<ErrorMarkV>,
    pub candidates: Seq<CandidateV>,
}

/// The cycle's decision over deposits taken in the given order: a deposit
/// with an unparsable amount is rejected and costs nothing; the first
/// deposit whose amount exceeds the balance snapshot stops the cycle, with
/// everything after it untouched; a deposit with an invalid destination is
/// rejected; the rest become candidates.
pub open spec fn plan_of(txs: Seq<TxToProcessV>, balance: u128) -> CyclePlanV
    decreases txs.len(),
{
    if txs.len() == 0 {
        CyclePlanV { marks: Seq::<ErrorMarkV>::empty(), candidates: Seq::<CandidateV>::empty() }
    } else {
        let t = txs[0];
        match amount_key(t) {
            None => {
                let rest = plan_of(txs.drop_first(), balance);
                CyclePlanV {
                    marks: seq![ErrorMarkV { id: t.id, message: amount_error_message() }]
                        + rest.marks,
                    candidates: rest.candidates,
                }
            },
            Some(v) => {
                if v > balance {
                    CyclePlanV {
                        marks: Seq::<ErrorMarkV>::empty(),
                        candidates: Seq::<CandidateV>::empty(),
                    }
                } else {
                    match ss58_public_of(t.glitch_address) {
                        None => {
                            let rest = plan_of(txs.drop_first(), balance);
                            CyclePlanV {
                                marks: seq![
                                    ErrorMarkV { id: t.id, message: address_error_message() },
                                ] + rest.marks,
                                candidates: rest.candidates,
                            }
                        },
                        Some(pk) => {
                            let rest = plan_of(txs.drop_first(), balance);
                            CyclePlanV {
                                marks: rest.marks,
                                candidates: seq![
                                    CandidateV {
                                        id: t.id,
                                        glitch_address: t.glitch_address,
                                        public: pk,
                                        amount: v,
                                    },
                                ] + rest.candidates,
                            }
                        },
                    }
                }
            },
        }
    }
}

/// Every candidate a cycle commits to is covered by the balance snapshot.
pub proof fn lemma_plan_candidates_affordable(txs: Seq<TxToProcessV>, balance: u128)
    ensures
        forall|k: int|
            0 <= k < plan_of(txs, balance).candidates.len() ==> (#[trigger] plan_of(
                txs,
                balance,
            ).candidates[k]).amount <= balance,
    decreases txs.len(),
{
    if txs.len() > 0 {
        lemma_plan_candidates_affordable(txs.drop_first(), balance);
        let p = plan_of(txs, balance);
        let rest = plan_of(txs.drop_first(), balance);
        assert forall|k: int|
            0 <= k < p.candidates.len() implies (#[trigger] p.candidates[k]).amount
            <= balance by {
            match amount_key(txs[0]) {
                None => {
                    assert(p.candidates[k] == rest.candidates[k]);
                },
                Some(v) => {
                    if v <= balance {
                        match ss58_public_of(txs[0].glitch_address) {
                            None => {
                                assert(p.candidates[k] == rest.candidates[k]);
                            },
                            Some(pk) => {
                                if k > 0 {
                                    assert(p.candidates[k] == rest.candidates[k - 1]);
                                }
                            },
                        }
                    }
                },
            }
        }
    }
}

/// On deposits in engine order, the cycle serves every valid deposit the
/// balance snapshot covers: each one with a parsable amount within the
/// balance and a well-formed destination becomes a candidate, carrying its
/// parsed amount and its destination.
pub proof fn lemma_sorted_plan_serves_all_affordable(
    txs: Seq<TxToProcessV>,
    balance: u128,
    k: int,
)
    requires
        forall|i: int, j: int| 0 <= i < j < txs.len() ==> key_le(#[trigger] txs[i], #[trigger] txs[j]),
        0 <= k < txs.len(),
        amount_key(txs[k]) is Some,
        amount_key(txs[k]).unwrap() <= balance,
        ss58_public_of(txs[k].glitch_address) is Some,
    ensures
        exists|c: int|
            0 <= c < plan_of(txs, balance).candidates.len() && (#[trigger] plan_of(
                txs,
                balance,
            ).candidates[c]).id == txs[k].id && Some(plan_of(txs, balance).candidates[c].amount)
                == amount_key(txs[k]) && plan_of(txs, balance).candidates[c].glitch_address
                == txs[k].glitch_address,
    decreases txs.len(),
{
    let rest = txs.drop_first();
    let plan = plan_of(txs, balance);
    assert forall|i: int, j: int|
        0 <= i < j < rest.len() implies key_le(#[trigger] rest[i], #[trigger] rest[j]) by {
        assert(rest[i] == txs[i + 1]);
        assert(rest[j] == txs[j + 1]);
    }
    match amount_key(txs[0]) {
        None => {
            assert(k > 0);
            assert(rest[k - 1] == txs[k]);
            lemma_sorted_plan_serves_all_affordable(rest, balance, k - 1);
            let c = choose|c: int|
                0 <= c < plan_of(rest, balance).candidates.len() && (#[trigger] plan_of(
                    rest,
                    balance,
                ).candidates[c]).id == rest[k - 1].id && Some(
                    plan_of(rest, balance).candidates[c].amount,
                ) == amount_key(rest[k - 1]) && plan_of(rest, balance).candidates[c].glitch_address
                    == rest[k - 1].glitch_address;
            assert(plan.candidates[c] == plan_of(rest, balance).candidates[c]);
        },
        Some(v0) => {
            if v0 > balance {
                if k == 0 {
                    assert(false);
                } else {
                    assert(key_le(txs[0], txs[k]));
                    assert(false);
                }
            } else {
                match ss58_public_of(txs[0].glitch_address) {
                    None => {
                        assert(k > 0);
                        assert(rest[k - 1] == txs[k]);
                        lemma_sorted_plan_serves_all_affordable(rest, balance, k - 1);
                        let c = choose|c: int|
                            0 <= c < plan_of(rest, balance).candidates.len() && (#[trigger] plan_of(
                                rest,
                                balance,
                            ).candidates[c]).id == rest[k - 1].id && Some(
                                plan_of(rest, balance).candidates[c].amount,
                            ) == amount_key(rest[k - 1]) && plan_of(
                                rest,
                                balance,
                            ).candidates[c].glitch_address == rest[k - 1].glitch_address;
                        assert(plan.candidates[c] == plan_of(rest, balance).candidates[c]);
                    },
                    Some(pk) => {
                        if k == 0 {
                            assert(plan.candidates[0].id == txs[0].id);
                        } else {
                            assert(rest[k - 1] == txs[k]);
                            lemma_sorted_plan_serves_all_affordable(rest, balance, k - 1);
                            let c = choose|c: int|
                                0 <= c < plan_of(rest, balance).candidates.len() && (
                                #[trigger] plan_of(rest, balance).candidates[c]).id == rest[k
                                    - 1].id && Some(plan_of(rest, balance).candidates[c].amount)
                                    == amount_key(rest[k - 1]) && plan_of(
                                    rest,
                                    balance,
                                ).candidates[c].glitch_address == rest[k - 1].glitch_address;
                            assert(plan.candidates[c + 1] == plan_of(rest, balance).candidates[c]);
                        }
                    },
                }
            }
        },
    }
}

/// Decides one engine cycle over deposits in the given order against a
/// single balance snapshot, per `plan_of`.
pub fn plan_cycle(txs: &Vec<TxToProcess>, balance: u128) -> (r: (Vec<ErrorMark>, Vec<Candidate>))
    ensures
        r.0@.map_values(|e: ErrorMark| e@) == plan_of(
            txs@.map_values(|t: TxToProcess| t@),
            balance,
        ).marks,
        r.1@.map_values(|c: Candidate| c@) == plan_of(
            txs@.map_values(|t: TxToProcess| t@),
            balance,
        ).candidates,
{
    let ghost all = txs@.map_values(|t: TxToProcess| t@);
    let ghost plan = plan_of(all, balance);
    let mut marks: Vec<ErrorMark> = Vec::new();
    let mut cands: Vec<Candidate> = Vec::new();
    proof {
        assert(all.skip(0) =~= all);
        assert(marks@.map_values(|e: ErrorMark| e@) =~= Seq::<ErrorMarkV>::empty());
        assert(cands@.map_values(|c: Candidate| c@) =~= Seq::<CandidateV>::empty());
        assert(plan.marks =~= marks@.map_values(|e: ErrorMark| e@) + plan_of(all, balance).marks);
        assert(plan.candidates =~= cands@.map_values(|c: Candidate| c@) + plan_of(
            all,
            balance,
        ).candidates);
    }
    let n = txs.len();
    let mut i: usize = 0;
    loop
        invariant_except_break
            0 <= i <= n,
            n == txs@.len(),
            all == txs@.map_values(|t: TxToProcess| t@),
            plan == plan_of(all, balance),
            plan.marks == marks@.map_values(|e: ErrorMark| e@) + plan_of(
                all.skip(i as int),
                balance,
            ).marks,
            plan.candidates == cands@.map_values(|c: Candidate| c@) + plan_of(
                all.skip(i as int),
                balance,
            ).candidates,
        ensures
            plan == plan_of(all, balance),
            plan.marks == marks@.map_values(|e: ErrorMark| e@),
            plan.candidates == cands@.map_values(|c: Candidate| c@),
        decreases n - i,
    {
        if i == n {
            proof {
                assert(all.skip(n as int) =~= Seq::<TxToProcessV>::empty());
                assert(plan.marks =~= marks@.map_values(|e: ErrorMark| e@));
                assert(plan.candidates =~= cands@.map_values(|c: Candidate| c@));
            }
            break ;
        }
        let ghost rest = all.skip(i as int);
        proof {
            assert(rest.len() > 0);
            assert(rest[0] == all[i as int]);
            assert(rest.drop_first() =~= all.skip(i as int + 1));
        }
        let t = &txs[i];
        match parse_u128(t.amount.as_str()) {
            None => {
                let ghost mv = ErrorMarkV { id: t.id, message: amount_error_message() };
                marks.push(
                    ErrorMark { id: t.id, message: "Error with amount: not a valid integer".to_owned() },
                );
                proof {
                    assert(marks@.last()@ =~= mv);
                    assert(marks@.map_values(|e: ErrorMark| e@) =~= marks@.drop_last().map_values(
                        |e: ErrorMark| e@,
                    ).push(mv));
                    assert(marks@.drop_last().map_values(|e: ErrorMark| e@).push(mv) + plan_of(
                        all.skip(i as int + 1),
                        balance,
                    ).marks =~= marks@.drop_last().map_values(|e: ErrorMark| e@) + (seq![mv]
                        + plan_of(all.skip(i as int + 1), balance).marks));
                }
            },
            Some(v) => {
                if v > balance {
                    proof {
                        assert(plan_of(rest, balance).marks =~= Seq::<ErrorMarkV>::empty());
                        assert(plan_of(rest, balance).candidates =~= Seq::<CandidateV>::empty());
                        assert(plan.marks =~= marks@.map_values(|e: ErrorMark| e@));
                        assert(plan.candidates =~= cands@.map_values(|c: Candidate| c@));
                    }
                    break ;
                }
                match parse_glitch_address(t.glitch_address.as_str()) {
                    None => {
                        let ghost mv = ErrorMarkV { id: t.id, message: address_error_message() };
                        marks.push(
                            ErrorMark {
                                id: t.id,
                                message: "Error with address: not a valid SS58 address".to_owned(),
                            },
                        );
                        proof {
                            assert(marks@.last()@ =~= mv);
                            assert(marks@.map_values(|e: ErrorMark| e@)
                                =~= marks@.drop_last().map_values(|e: ErrorMark| e@).push(mv));
                            assert(marks@.drop_last().map_values(|e: ErrorMark| e@).push(mv)
                                + plan_of(all.skip(i as int + 1), balance).marks
                                =~= marks@.drop_last().map_values(|e: ErrorMark| e@) + (seq![mv]
                                + plan_of(all.skip(i as int + 1), balance).marks));
                        }
                    },
                    Some(pk) => {
                        let ghost cv = CandidateV {
                            id: t.id,
                            glitch_address: t.glitch_address@,
                            public: pk@,
                            amount: v,
                        };
                        cands.push(
                            Candidate {
                                id: t.id,
                                glitch_address: t.glitch_address.clone(),
                                public: pk,
                                amount: v,
                            },
                        );
                        proof {
                            assert(cands@.last()@ =~= cv);
                            assert(cands@.map_values(|c: Candidate| c@)
                                =~= cands@.drop_last().map_values(|c: Candidate| c@).push(cv));
                            assert(cands@.drop_last().map_values(|c: Candidate| c@).push(cv)
                                + plan_of(all.skip(i as int + 1), balance).candidates
                                =~= cands@.drop_last().map_values(|c: Candidate| c@) + (seq![cv]
                                + plan_of(all.skip(i as int + 1), balance).candidates));
                        }
                    },
                }
            },
        }
        i = i + 1;
    }
    (marks, cands)
}

/// Marks rejected in order, each as one store operation.
pub open spec fn apply_marks(m: StoreModel, marks: Seq<ErrorMarkV>) -> StoreModel
    decreases marks.len(),
{
    if marks.len() == 0 {
        m
    } else {
        apply_marks(
            apply_op(m, StoreOp::SetError { id: marks[0].id, message: marks[0].message }),
            marks.drop_first(),
        )
    }
}

/// Records every rejection the cycle decided: each marked deposit moves from
/// waiting to its terminal error state.
pub fn apply_error_marks(store: &mut RelayStore, marks: &Vec<ErrorMark>)
    ensures
        final(store)@ == apply_marks(old(store)@, marks@.map_values(|e: ErrorMark| e@)),
{
    let ghost all = marks@.map_values(|e: ErrorMark| e@);
    proof {
        assert(all.skip(0) =~= all);
    }
    let len = marks.len();
    let mut k: usize = 0;
    while k < len
        invariant
            0 <= k <= len,
            len == marks@.len(),
            all == marks@.map_values(|e: ErrorMark| e@),
            apply_marks(old(store)@, all) == apply_marks(store@, all.skip(k as int)),
        decreases len - k,
    {
        let ghost pre = store@;
        proof {
            assert(all.skip(k as int).len() > 0);
            assert(all.skip(k as int)[0] == all[k as int]);
            assert(all.skip(k as int).drop_first() =~= all.skip(k as int + 1));
        }
        store.save_with_error(marks[k].id, marks[k].message.clone());
        proof {
            assert(store@ == apply_op(
                pre,
                StoreOp::SetError { id: all[k as int].id, message: all[k as int].message },
            ));
        }
        k = k + 1;
    }
    assert(all.skip(len as int) =~= Seq::<ErrorMarkV>::empty());
}

/// A transfer the engine is about to submit for one committed deposit.
#[derive(Debug)]
pub struct TransferOrder {
    pub id: u128,
    pub glitch_address: String,
    pub public: Vec<u8>,
    pub amount_to_send: u128,
    pub business_fee_amount: u128,
    pub business_fee_percentage: u64,
}

/// Commits one candidate before submission: computes the fee split, accrues
/// the business fee on the scanner's counter, and marks the deposit in
/// flight. Returns the transfer to submit, or nothing (and changes nothing)
/// when the quoted network fee exceeds the deposit, in which case the
/// deposit stays waiting.
pub fn commit_candidate(
    store: &mut RelayStore,
    name: &String,
    cand: &Candidate,
    network_fee: u128,
    business_fee_percentage: u64,
) -> (r: Option<TransferOrder>)
    requires
        business_fee_percentage <= 100,
    ensures
        match r {
            Some(order) => {
                &&& network_fee <= cand.amount
                &&& order.id == cand.id
                &&& order.glitch_address@ == cand.glitch_address@
                &&& order.public@ == cand.public@
                &&& order.business_fee_amount == business_fee_of(
                    (cand.amount - network_fee) as nat,
                    business_fee_percentage as nat,
                )
                &&& order.amount_to_send == cand.amount - network_fee
                    - order.business_fee_amount
                &&& order.business_fee_percentage == business_fee_percentage
                &&& final(store)@ == apply_op(
                    apply_op(
                        old(store)@,
                        StoreOp::IncrementFee {
                            name: name@,
                            amount: order.business_fee_amount,
                        },
                    ),
                    StoreOp::SetProcessing { id: cand.id },
                )
            },
            None => network_fee > cand.amount && final(store)@ == old(store)@,
        },
{
    let split = match calculate_amount_to_transfer_and_business_fee(
        cand.amount,
        network_fee,
        business_fee_percentage,
    ) {
        Some(s) => s,
        None => {
            return None;
        },
    };
    store.increment_fee_counter(name, split.business_fee_amount);
    store.update_tx_to_processing(cand.id);
    Some(
        TransferOrder {
            id: cand.id,
            glitch_address: cand.glitch_address.clone(),
            public: clone_bytes(&cand.public),
            amount_to_send: split.amount_to_send,
            business_fee_amount: split.business_fee_amount,
            business_fee_percentage: business_fee_percentage,
        },
    )
}

fn clone_bytes(v: &Vec<u8>) -> (r: Vec<u8>)
    ensures
        r@ == v@,
{
    let mut r: Vec<u8> = Vec::new();
    let n = v.len();
    let mut i: usize = 0;
    while i < n
        invariant
            0 <= i <= n,
            n == v@.len(),
            r@ =~= v@.take(i as int),
        decreases n - i,
    {
        r.push(v[i]);
        assert(r@ =~= v@.take(i as int + 1));
        i = i + 1;
    }
    assert(v@.take(n as int) =~= v@);
    r
}

/// Records the outcome of a submitted transfer: a finalized destination
/// transaction settles the deposit; a failed submission changes nothing, so
/// the deposit stays in flight for a later retry.
pub fn record_transfer_result(
    store: &mut RelayStore,
    id: u128,
    outcome: Option<String>,
    business_fee_amount: u128,
    business_fee_percentage: u64,
)
    ensures
        match outcome {
            Some(h) => final(store)@ == apply_op(
                old(store)@,
                StoreOp::SetProcessed {
                    id: id,
                    glitch_tx_hash: h@,
                    business_fee_amount: business_fee_amount,
                    business_fee_percentage: business_fee_percentage,
                },
            ),
            None => final(store)@ == old(store)@,
        },
{
    match outcome {
        Some(h) => {
            store.update_tx(id, h, business_fee_amount, business_fee_percentage);
        },
        None => {},
    }
}

} // verus!
