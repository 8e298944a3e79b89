//! The reference store: an in-memory implementation of the relay's
//! transactional store interface, proved to realise the operation semantics
//! in `model`. A durable backend must honour the same contracts.

use vstd::prelude::*;

use crate::model::add_fee;
use crate::model::apply_op;
use crate::model::has_hash;
use crate::model::has_scan_state;
use crate::model::insert_drafts;
use crate::model::insert_one;
use crate::model::pending_of;
use crate::model::record_of;
use crate::model::set_block_if_at_least;
use crate::model::set_dep_error;
use crate::model::set_dep_processed;
use crate::model::set_dep_processing;
use crate::model::set_fee;
use crate::model::tx_of;
use crate::model::DepositDraft;
use crate::model::DepositRecord;
use crate::model::DepositState;
use crate::model::FeePayment;
use crate::model::NetworkScanState;
use crate::model::StoreModel;
use crate::model::StoreOp;
use crate::model::TxToProcess;

verus! {

/// In-memory relay store. Deposits and fee payments are append-only; scan
/// states are created once per scanner name.
pub struct RelayStore {
    pub scan_states: Vec<NetworkScanState>,
    pub deposits: Vec<DepositRecord>,
    pub fee_payments: Vec<FeePayment>,
    pub next_deposit_id: u128,
}

impl View for RelayStore {
    type V = StoreModel;

    open spec fn view(&self) -> StoreModel {
        StoreModel {
            scan_states: self.scan_states@.map_values(|s: NetworkScanState| s@),
            deposits: self.deposits@.map_values(|d: DepositRecord| d@),
            fee_payments: self.fee_payments@.map_values(|p: FeePayment| p@),
            next_id: self.next_deposit_id,
        }
    }
}

fn clone_opt_string(o: &Option<String>) -> (r: Option<String>)
    ensures
        r == *o,
{
    match o {
        Some(s) => Some(s.clone()),
        None => None,
    }
}

fn clone_record(d: &DepositRecord) -> (r: DepositRecord)
    ensures
        r@ == d@,
{
    let r = DepositRecord {
        id: d.id,
        eth_tx_hash: d.eth_tx_hash.clone(),
        eth_from_address: d.eth_from_address.clone(),
        amount: d.amount.clone(),
        glitch_address: d.glitch_address.clone(),
        state: d.state,
        glitch_tx_hash: clone_opt_string(&d.glitch_tx_hash),
        business_fee_amount: d.business_fee_amount,
        business_fee_percentage: d.business_fee_percentage,
        error_message: clone_opt_string(&d.error_message),
    };
    assert(r@ =~= d@);
    r
}

fn clone_scan_state(s: &NetworkScanState) -> (r: NetworkScanState)
    ensures
        r@ == s@,
{
    let r = NetworkScanState {
        name: s.name.clone(),
        network: s.network.clone(),
        monitor_address: s.monitor_address.clone(),
        last_block: s.last_block,
        accumulated_fees: s.accumulated_fees,
    };
    assert(r@ =~= s@);
    r
}

impl RelayStore {
    /// An empty store: no scanner has run yet, nothing is recorded.
    pub fn new() -> (s: Self)
        ensures
            s@ == (StoreModel {
                scan_states: Seq::<crate::model::NetworkScanStateV>::empty(),
                deposits: Seq::<crate::model::DepositRecordV>::empty(),
                fee_payments: Seq::<crate::model::FeePaymentV>::empty(),
                next_id: 0,
            }),
    {
        let s = RelayStore {
            scan_states: Vec::new(),
            deposits: Vec::new(),
            fee_payments: Vec::new(),
            next_deposit_id: 0,
        };
        assert(s@ =~= (StoreModel {
            scan_states: Seq::<crate::model::NetworkScanStateV>::empty(),
            deposits: Seq::<crate::model::DepositRecordV>::empty(),
            fee_payments: Seq::<crate::model::FeePaymentV>::empty(),
            next_id: 0,
        }));
        s
    }

    /// Creates the scan state for a scanner on first sight; reports whether
    /// it already existed.
    pub fn exists_network_state(&mut self, name: &String, network: &String, monitor_address: &String) -> (existed: bool)
        ensures
            final(self)@ == apply_op(
                old(self)@,
                StoreOp::GetOrCreate {
                    name: name@,
                    network: network@,
                    monitor_address: monitor_address@,
                },
            ),
            existed == has_scan_state(old(self)@.scan_states, name@),
    {
        let n = self.scan_states.len();
        let mut i: usize = 0;
        while i < n
            invariant
                0 <= i <= n,
                n == self.scan_states@.len(),
                forall|j: int| 0 <= j < i ==> (#[trigger] self.scan_states@[j])@.name != name@,
            decreases n - i,
        {
            if self.scan_states[i].name == *name {
                proof {
                    assert(self@.scan_states[i as int] == self.scan_states@[i as int]@);
                    assert(self@.scan_states[i as int].name == name@);
                    assert(has_scan_state(self@.scan_states, name@));
                }
                return true;
            }
            i = i + 1;
        }
        proof {
            assert forall|j: int|
                0 <= j < self@.scan_states.len() implies (#[trigger] self@.scan_states[j]).name
                != name@ by {
                assert(self@.scan_states[j] == self.scan_states@[j]@);
            }
        }
        assert(!has_scan_state(self@.scan_states, name@));
        let ghost m0 = self@;
        self.scan_states.push(
            NetworkScanState {
                name: name.clone(),
                network: network.clone(),
                monitor_address: monitor_address.clone(),
                last_block: 0,
                accumulated_fees: 0,
            },
        );
        assert(self@ =~= apply_op(
            m0,
            StoreOp::GetOrCreate { name: name@, network: network@, monitor_address: monitor_address@ },
        ));
        false
    }

    /// The persisted watermark for a scanner, if it has a scan state.
    pub fn get_last_block(&self, name: &String) -> (r: Option<u64>)
        ensures
            match r {
                Some(b) => exists|j: int|
                    0 <= j < self@.scan_states.len() && (#[trigger] self@.scan_states[j]).name
                        == name@ && self@.scan_states[j].last_block == b,
                None => !has_scan_state(self@.scan_states, name@),
            },
            r is Some <==> has_scan_state(self@.scan_states, name@),
    {
        let n = self.scan_states.len();
        let mut i: usize = 0;
        while i < n
            invariant
                0 <= i <= n,
                n == self.scan_states@.len(),
                forall|j: int| 0 <= j < i ==> (#[trigger] self.scan_states@[j])@.name != name@,
            decreases n - i,
        {
            if self.scan_states[i].name == *name {
                proof {
                    assert(self@.scan_states[i as int] == self.scan_states@[i as int]@);
                    assert(self@.scan_states[i as int].name == name@);
                    assert(has_scan_state(self@.scan_states, name@));
                }
                return Some(self.scan_states[i].last_block);
            }
            i = i + 1;
        }
        proof {
            assert forall|j: int|
                0 <= j < self@.scan_states.len() implies (#[trigger] self@.scan_states[j]).name
                != name@ by {
                assert(self@.scan_states[j] == self.scan_states@[j]@);
            }
        }
        None
    }

    /// The accumulated business fee counter for a scanner.
    pub fn get_fee_counter(&self, name: &String) -> (r: Option<u128>)
        ensures
            match r {
                Some(c) => exists|j: int|
                    0 <= j < self@.scan_states.len() && (#[trigger] self@.scan_states[j]).name
                        == name@ && self@.scan_states[j].accumulated_fees == c,
                None => !has_scan_state(self@.scan_states, name@),
            },
            r is Some <==> has_scan_state(self@.scan_states, name@),
    {
        let n = self.scan_states.len();
        let mut i: usize = 0;
        while i < n
            invariant
                0 <= i <= n,
                n == self.scan_states@.len(),
                forall|j: int| 0 <= j < i ==> (#[trigger] self.scan_states@[j])@.name != name@,
            decreases n - i,
        {
            if self.scan_states[i].name == *name {
                proof {
                    assert(self@.scan_states[i as int] == self.scan_states@[i as int]@);
                    assert(self@.scan_states[i as int].name == name@);
                    assert(has_scan_state(self@.scan_states, name@));
                }
                return Some(self.scan_states[i].accumulated_fees);
            }
            i = i + 1;
        }
        proof {
            assert forall|j: int|
                0 <= j < self@.scan_states.len() implies (#[trigger] self@.scan_states[j]).name
                != name@ by {
                assert(self@.scan_states[j] == self.scan_states@[j]@);
            }
        }
        None
    }

    /// The time of the most recent fee settlement, if any was recorded.
    pub fn get_fee_last_time(&self) -> (r: Option<String>)
        ensures
            match r {
                Some(t) => self@.fee_payments.len() > 0 && t@ == self@.fee_payments.last().time,
                None => self@.fee_payments.len() == 0,
            },
    {
        let n = self.fee_payments.len();
        if n == 0 {
            None
        } else {
            Some(self.fee_payments[n - 1].time.clone())
        }
    }

    /// The deposits still waiting for the engine, in store order.
    pub fn txs_to_process(&self) -> (r: Vec<TxToProcess>)
        ensures
            r@.map_values(|t: TxToProcess| t@) == pending_of(self@.deposits),
    {
        let ghost deps = self@.deposits;
        let mut out: Vec<TxToProcess> = Vec::new();
        proof {
            assert(deps.skip(0) =~= deps);
            assert(out@.map_values(|t: TxToProcess| t@) =~= Seq::<crate::model::TxToProcessV>::empty());
            assert(out@.map_values(|t: TxToProcess| t@) + pending_of(deps) =~= pending_of(deps));
        }
        let n = self.deposits.len();
        let mut i: usize = 0;
        while i < n
            invariant
                0 <= i <= n,
                n == self.deposits@.len(),
                deps == self@.deposits,
                pending_of(deps) == out@.map_values(|t: TxToProcess| t@) + pending_of(
                    deps.skip(i as int),
                ),
            decreases n - i,
        {
            let ghost rest = deps.skip(i as int);
            proof {
                assert(rest.len() > 0);
                assert(rest[0] == deps[i as int]);
                assert(rest.drop_first() =~= deps.skip(i as int + 1));
            }
            if self.deposits[i].state == DepositState::ToProcess {
                let d = &self.deposits[i];
                out.push(
                    TxToProcess {
                        id: d.id,
                        glitch_address: d.glitch_address.clone(),
                        amount: d.amount.clone(),
                    },
                );
                proof {
                    assert(out@.last()@ =~= tx_of(deps[i as int]));
                    assert(out@.map_values(|t: TxToProcess| t@) =~= out@.drop_last().map_values(
                        |t: TxToProcess| t@,
                    ).push(tx_of(deps[i as int])));
                    assert(out@.drop_last().map_values(|t: TxToProcess| t@).push(
                        tx_of(deps[i as int]),
                    ) + pending_of(deps.skip(i as int + 1)) =~= out@.drop_last().map_values(
                        |t: TxToProcess| t@,
                    ) + (seq![tx_of(deps[i as int])] + pending_of(deps.skip(i as int + 1))));
                }
            }
            i = i + 1;
        }
        assert(deps.skip(n as int) =~= Seq::<crate::model::DepositRecordV>::empty());
        assert(out@.map_values(|t: TxToProcess| t@) =~= pending_of(deps));
        out
    }

    fn insert_one_draft(&mut self, draft: &DepositDraft)
        ensures
            final(self)@ == insert_one(old(self)@, draft@),
    {
        let n = self.deposits.len();
        let mut i: usize = 0;
        while i < n
            invariant
                0 <= i <= n,
                n == self.deposits@.len(),
                forall|j: int|
                    0 <= j < i ==> (#[trigger] self.deposits@[j])@.eth_tx_hash
                        != draft@.eth_tx_hash,
            decreases n - i,
        {
            if self.deposits[i].eth_tx_hash == draft.eth_tx_hash {
                proof {
                    assert(self@.deposits[i as int] == self.deposits@[i as int]@);
                    assert(self@.deposits[i as int].eth_tx_hash == draft@.eth_tx_hash);
                    assert(has_hash(self@.deposits, draft@.eth_tx_hash));
                }
                return ;
            }
            i = i + 1;
        }
        proof {
            assert forall|j: int|
                0 <= j < self@.deposits.len() implies (#[trigger] self@.deposits[j]).eth_tx_hash
                != draft@.eth_tx_hash by {
                assert(self@.deposits[j] == self.deposits@[j]@);
            }
        }
        assert(!has_hash(self@.deposits, draft@.eth_tx_hash));
        if self.next_deposit_id == u128::MAX {
            return ;
        }
        let ghost m0 = self@;
        let id = self.next_deposit_id;
        self.deposits.push(
            DepositRecord {
                id: id,
                eth_tx_hash: draft.eth_tx_hash.clone(),
                eth_from_address: draft.eth_from_address.clone(),
                amount: draft.amount.clone(),
                glitch_address: draft.glitch_address.clone(),
                state: DepositState::ToProcess,
                glitch_tx_hash: None,
                business_fee_amount: None,
                business_fee_percentage: None,
                error_message: None,
            },
        );
        self.next_deposit_id = id + 1;
        proof {
            assert(self.deposits@.last()@ =~= record_of(draft@, id));
            assert(self@.deposits =~= m0.deposits.push(record_of(draft@, id)));
            assert(self@ =~= insert_one(m0, draft@));
        }
    }

    /// Inserts decoded deposits, skipping any whose source transaction hash
    /// is already recorded. Used by catch-up, which never moves the
    /// watermark.
    pub fn insert_txs(&mut self, drafts: &Vec<DepositDraft>)
        ensures
            final(self)@ == apply_op(
                old(self)@,
                StoreOp::InsertDeposits { drafts: drafts@.map_values(|d: DepositDraft| d@) },
            ),
    {
        let ghost all = drafts@.map_values(|d: DepositDraft| d@);
        proof {
            assert(all.skip(0) =~= all);
        }
        let len = drafts.len();
        let mut k: usize = 0;
        while k < len
            invariant
                0 <= k <= len,
                len == drafts@.len(),
                all == drafts@.map_values(|d: DepositDraft| d@),
                insert_drafts(old(self)@, all) == insert_drafts(self@, all.skip(k as int)),
            decreases len - k,
        {
            let ghost pre = self@;
            proof {
                assert(all.skip(k as int).len() > 0);
                assert(all.skip(k as int)[0] == all[k as int]);
                assert(all.skip(k as int).drop_first() =~= all.skip(k as int + 1));
            }
            self.insert_one_draft(&drafts[k]);
            proof {
                assert(self@ == insert_one(pre, all[k as int]));
                assert(insert_drafts(pre, all.skip(k as int)) == insert_drafts(
                    self@,
                    all.skip(k as int + 1),
                ));
            }
            k = k + 1;
        }
        assert(all.skip(len as int) =~= Seq::<crate::model::DepositDraftV>::empty());
    }

    fn advance_block(&mut self, name: &String, block: u64)
        ensures
            final(self)@ == (StoreModel {
                scan_states: set_block_if_at_least(old(self)@.scan_states, name@, block),
                ..old(self)@
            }),
    {
        let ghost target = set_block_if_at_least(old(self)@.scan_states, name@, block);
        let n = self.scan_states.len();
        let mut i: usize = 0;
        while i < n
            invariant
                0 <= i <= n,
                n == self.scan_states@.len(),
                self.scan_states@.len() == old(self).scan_states@.len(),
                self.deposits == old(self).deposits,
                self.fee_payments == old(self).fee_payments,
                self.next_deposit_id == old(self).next_deposit_id,
                target == set_block_if_at_least(old(self)@.scan_states, name@, block),
                forall|j: int| 0 <= j < i ==> (#[trigger] self.scan_states@[j])@ == target[j],
                forall|j: int|
                    i <= j < n ==> #[trigger] self.scan_states@[j] == old(self).scan_states@[j],
            decreases n - i,
        {
            let hit = self.scan_states[i].name == *name && self.scan_states[i].last_block <= block;
            if hit {
                let mut ns = clone_scan_state(&self.scan_states[i]);
                ns.last_block = block;
                self.scan_states.set(i, ns);
                assert(self.scan_states@[i as int]@ =~= target[i as int]);
            } else {
                assert(self.scan_states@[i as int]@ =~= target[i as int]);
            }
            i = i + 1;
        }
        proof {
            assert(self@.scan_states =~= target);
            assert(self@ =~= (StoreModel { scan_states: target, ..old(self)@ }));
        }
    }

    /// The scanner's atomic commit: inserts the deposits of a scanned range
    /// and advances the watermark to the top of that range, as one unit.
    pub fn update_block_and_insert_txs(&mut self, name: &String, block: u64, drafts: &Vec<DepositDraft>)
        ensures
            final(self)@ == apply_op(
                old(self)@,
                StoreOp::AdvanceAndInsert {
                    name: name@,
                    block: block,
                    drafts: drafts@.map_values(|d: DepositDraft| d@),
                },
            ),
    {
        self.insert_txs(drafts);
        self.advance_block(name, block);
    }

    /// Marks a waiting deposit as being executed in the current cycle.
    pub fn update_tx_to_processing(&mut self, id: u128)
        ensures
            final(self)@ == apply_op(old(self)@, StoreOp::SetProcessing { id }),
    {
        let ghost target = set_dep_processing(old(self)@.deposits, id);
        let n = self.deposits.len();
        let mut i: usize = 0;
        while i < n
            invariant
                0 <= i <= n,
                n == self.deposits@.len(),
                self.deposits@.len() == old(self).deposits@.len(),
                self.scan_states == old(self).scan_states,
                self.fee_payments == old(self).fee_payments,
                self.next_deposit_id == old(self).next_deposit_id,
                target == set_dep_processing(old(self)@.deposits, id),
                forall|j: int| 0 <= j < i ==> (#[trigger] self.deposits@[j])@ == target[j],
                forall|j: int|
                    i <= j < n ==> #[trigger] self.deposits@[j] == old(self).deposits@[j],
            decreases n - i,
        {
            let hit = self.deposits[i].id == id && self.deposits[i].state
                == DepositState::ToProcess;
            if hit {
                let mut nd = clone_record(&self.deposits[i]);
                nd.state = DepositState::Processing;
                self.deposits.set(i, nd);
                assert(self.deposits@[i as int]@ =~= target[i as int]);
            } else {
                assert(self.deposits@[i as int]@ =~= target[i as int]);
            }
            i = i + 1;
        }
        proof {
            assert(self@.deposits =~= target);
            assert(self@ =~= apply_op(old(self)@, StoreOp::SetProcessing { id }));
        }
    }

    /// Settles an in-flight deposit: destination transaction hash and the
    /// fee retained are recorded and the record becomes terminal.
    pub fn update_tx(
        &mut self,
        id: u128,
        glitch_tx_hash: String,
        business_fee_amount: u128,
        business_fee_percentage: u64,
    )
        ensures
            final(self)@ == apply_op(
                old(self)@,
                StoreOp::SetProcessed {
                    id: id,
                    glitch_tx_hash: glitch_tx_hash@,
                    business_fee_amount: business_fee_amount,
                    business_fee_percentage: business_fee_percentage,
                },
            ),
    {
        let ghost target = set_dep_processed(
            old(self)@.deposits,
            id,
            glitch_tx_hash@,
            business_fee_amount,
            business_fee_percentage,
        );
        let n = self.deposits.len();
        let mut i: usize = 0;
        while i < n
            invariant
                0 <= i <= n,
                n == self.deposits@.len(),
                self.deposits@.len() == old(self).deposits@.len(),
                self.scan_states == old(self).scan_states,
                self.fee_payments == old(self).fee_payments,
                self.next_deposit_id == old(self).next_deposit_id,
                target == set_dep_processed(
                    old(self)@.deposits,
                    id,
                    glitch_tx_hash@,
                    business_fee_amount,
                    business_fee_percentage,
                ),
                forall|j: int| 0 <= j < i ==> (#[trigger] self.deposits@[j])@ == target[j],
                forall|j: int|
                    i <= j < n ==> #[trigger] self.deposits@[j] == old(self).deposits@[j],
            decreases n - i,
        {
            let hit = self.deposits[i].id == id && self.deposits[i].state
                == DepositState::Processing;
            if hit {
                let mut nd = clone_record(&self.deposits[i]);
                nd.state = DepositState::Processed;
                nd.glitch_tx_hash = Some(glitch_tx_hash.clone());
                nd.business_fee_amount = Some(business_fee_amount);
                nd.business_fee_percentage = Some(business_fee_percentage);
                self.deposits.set(i, nd);
                assert(self.deposits@[i as int]@ =~= target[i as int]);
            } else {
                assert(self.deposits@[i as int]@ =~= target[i as int]);
            }
            i = i + 1;
        }
        proof {
            assert(self@.deposits =~= target);
            assert(self@ =~= apply_op(
                old(self)@,
                StoreOp::SetProcessed {
                    id: id,
                    glitch_tx_hash: glitch_tx_hash@,
                    business_fee_amount: business_fee_amount,
                    business_fee_percentage: business_fee_percentage,
                },
            ));
        }
    }

    /// Rejects a waiting deposit, recording why; the record becomes terminal
    /// and no transfer is ever attempted for it.
    pub fn save_with_error(&mut self, id: u128, message: String)
        ensures
            final(self)@ == apply_op(old(self)@, StoreOp::SetError { id: id, message: message@ }),
    {
        let ghost target = set_dep_error(old(self)@.deposits, id, message@);
        let n = self.deposits.len();
        let mut i: usize = 0;
        while i < n
            invariant
                0 <= i <= n,
                n == self.deposits@.len(),
                self.deposits@.len() == old(self).deposits@.len(),
                self.scan_states == old(self).scan_states,
                self.fee_payments == old(self).fee_payments,
                self.next_deposit_id == old(self).next_deposit_id,
                target == set_dep_error(old(self)@.deposits, id, message@),
                forall|j: int| 0 <= j < i ==> (#[trigger] self.deposits@[j])@ == target[j],
                forall|j: int|
                    i <= j < n ==> #[trigger] self.deposits@[j] == old(self).deposits@[j],
            decreases n - i,
        {
            let hit = self.deposits[i].id == id && self.deposits[i].state
                == DepositState::ToProcess;
            if hit {
                let mut nd = clone_record(&self.deposits[i]);
                nd.state = DepositState::Error;
                nd.error_message = Some(message.clone());
                self.deposits.set(i, nd);
                assert(self.deposits@[i as int]@ =~= target[i as int]);
            } else {
                assert(self.deposits@[i as int]@ =~= target[i as int]);
            }
            i = i + 1;
        }
        proof {
            assert(self@.deposits =~= target);
            assert(self@ =~= apply_op(old(self)@, StoreOp::SetError { id: id, message: message@ }));
        }
    }

    fn set_fee_counter(&mut self, name: &String, amount: u128)
        ensures
            final(self)@ == (StoreModel {
                scan_states: set_fee(old(self)@.scan_states, name@, amount),
                ..old(self)@
            }),
    {
        let ghost target = set_fee(old(self)@.scan_states, name@, amount);
        let n = self.scan_states.len();
        let mut i: usize = 0;
        while i < n
            invariant
                0 <= i <= n,
                n == self.scan_states@.len(),
                self.scan_states@.len() == old(self).scan_states@.len(),
                self.deposits == old(self).deposits,
                self.fee_payments == old(self).fee_payments,
                self.next_deposit_id == old(self).next_deposit_id,
                target == set_fee(old(self)@.scan_states, name@, amount),
                forall|j: int| 0 <= j < i ==> (#[trigger] self.scan_states@[j])@ == target[j],
                forall|j: int|
                    i <= j < n ==> #[trigger] self.scan_states@[j] == old(self).scan_states@[j],
            decreases n - i,
        {
            if self.scan_states[i].name == *name {
                let mut ns = clone_scan_state(&self.scan_states[i]);
                ns.accumulated_fees = amount;
                self.scan_states.set(i, ns);
                assert(self.scan_states@[i as int]@ =~= target[i as int]);
            } else {
                assert(self.scan_states@[i as int]@ =~= target[i as int]);
            }
            i = i + 1;
        }
        proof {
            assert(self@.scan_states =~= target);
            assert(self@ =~= (StoreModel { scan_states: target, ..old(self)@ }));
        }
    }

    /// Overwrites the accumulated fee counter of a scanner.
    pub fn modify_fee_counter(&mut self, name: &String, amount: u128)
        ensures
            final(self)@ == apply_op(old(self)@, StoreOp::SetFee { name: name@, amount: amount }),
    {
        self.set_fee_counter(name, amount);
    }

    /// Adds one deposit's business fee to the scanner's accumulated counter.
    pub fn increment_fee_counter(&mut self, name: &String, amount: u128)
        ensures
            final(self)@ == apply_op(old(self)@, StoreOp::IncrementFee { name: name@, amount: amount }),
    {
        let ghost target = add_fee(old(self)@.scan_states, name@, amount);
        let n = self.scan_states.len();
        let mut i: usize = 0;
        while i < n
            invariant
                0 <= i <= n,
                n == self.scan_states@.len(),
                self.scan_states@.len() == old(self).scan_states@.len(),
                self.deposits == old(self).deposits,
                self.fee_payments == old(self).fee_payments,
                self.next_deposit_id == old(self).next_deposit_id,
                target == add_fee(old(self)@.scan_states, name@, amount),
                forall|j: int| 0 <= j < i ==> (#[trigger] self.scan_states@[j])@ == target[j],
                forall|j: int|
                    i <= j < n ==> #[trigger] self.scan_states@[j] == old(self).scan_states@[j],
            decreases n - i,
        {
            let room = self.scan_states[i].accumulated_fees.checked_add(amount);
            let hit = self.scan_states[i].name == *name && room.is_some();
            if hit {
                let mut ns = clone_scan_state(&self.scan_states[i]);
                ns.accumulated_fees = room.unwrap();
                self.scan_states.set(i, ns);
                assert(self.scan_states@[i as int]@ =~= target[i as int]);
            } else {
                assert(self.scan_states@[i as int]@ =~= target[i as int]);
            }
            i = i + 1;
        }
        proof {
            assert(self@.scan_states =~= target);
            assert(self@ =~= apply_op(
                old(self)@,
                StoreOp::IncrementFee { name: name@, amount: amount },
            ));
        }
    }

    /// The settlement commit: appends the treasury payment and resets the
    /// accumulated counter, as one unit. Called only after the treasury
    /// transfer is confirmed, so a failed submission never loses fees.
    pub fn insert_tx_fee(&mut self, name: &String, glitch_tx_hash: String, amount: u128, time: String)
        ensures
            final(self)@ == apply_op(
                old(self)@,
                StoreOp::RecordFeePayment {
                    name: name@,
                    glitch_tx_hash: glitch_tx_hash@,
                    amount: amount,
                    time: time@,
                },
            ),
    {
        let ghost m0 = self@;
        let ghost h = glitch_tx_hash@;
        let ghost t = time@;
        self.set_fee_counter(name, 0);
        self.fee_payments.push(
            FeePayment { glitch_tx_hash: glitch_tx_hash, amount: amount, time: time },
        );
        proof {
            assert(self@.fee_payments =~= m0.fee_payments.push(
                crate::model::FeePaymentV { glitch_tx_hash: h, amount: amount, time: t },
            ));
            assert(self@ =~= apply_op(
                m0,
                StoreOp::RecordFeePayment {
                    name: name@,
                    glitch_tx_hash: h,
                    amount: amount,
                    time: t,
                },
            ));
        }
    }
}

} // verus!
