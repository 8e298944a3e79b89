//! Mathematical model of the relay's durable state: scan watermarks, deposit
//! records and fee payments, together with the transition semantics of every
//! store operation the relay performs. The executable store in `store` is
//! proved to implement `apply_op`; the laws at the bottom hold for arbitrary
//! operation sequences.

use vstd::prelude::*;

verus! {

/// Lifecycle state of one deposit record.
#[derive(Clone, Copy, Debug, PartialEq, Eq, Structural)]
pub enum DepositState {
    ToProcess,
    Processing,
    Processed,
    Error,
}

/// A deposit in a terminal state is never mutated again.
pub open spec fn is_terminal(s: DepositState) -> bool {
    s == DepositState::Processed || s == DepositState::Error
}

/// The transitions the lifecycle allows: detection to in-flight, detection to
/// rejection, and in-flight to settled.
pub open spec fn can_step(a: DepositState, b: DepositState) -> bool {
    ||| (a == DepositState::ToProcess && b == DepositState::Processing)
    ||| (a == DepositState::ToProcess && b == DepositState::Error)
    ||| (a == DepositState::Processing && b == DepositState::Processed)
}

/// A decoded deposit event, before the store assigns it an identity.
#[derive(Debug)]
pub struct DepositDraft {
    pub eth_tx_hash: String,
    pub eth_from_address: String,
    pub amount: String,
    pub glitch_address: String,
}

/// View of a draft: its four text fields as character sequences.
pub struct DepositDraftV {
    pub eth_tx_hash: Seq<char>,
    pub eth_from_address: Seq<char>,
    pub amount: Seq<char>,
    pub glitch_address: Seq<char>,
}

impl View for DepositDraft {
    type V = DepositDraftV;

    open spec fn view(&self) -> DepositDraftV {
        DepositDraftV {
            eth_tx_hash: self.eth_tx_hash@,
            eth_from_address: self.eth_from_address@,
            amount: self.amount@,
            glitch_address: self.glitch_address@,
        }
    }
}

/// One detected deposit, as the store keeps it. Created exactly once per
/// unique source transaction hash; never deleted.
#[derive(Debug)]
pub struct DepositRecord {
    pub id: u128,
    pub eth_tx_hash: String,
    pub eth_from_address: String,
    pub amount: String,
    pub glitch_address: String,
    pub state: DepositState,
    pub glitch_tx_hash: Option<String>,
    pub business_fee_amount: Option<u128>,
    pub business_fee_percentage: Option<u64>,
    pub error_message: Option<String>,
}

#[verifier::ext_equal]
pub struct DepositRecordV {
    pub id: u128,
    pub eth_tx_hash: Seq<char>,
    pub eth_from_address: Seq<char>,
    pub amount: Seq<char>,
    pub glitch_address: Seq<char>,
    pub state: DepositState,
    pub glitch_tx_hash: Option<Seq<char>>,
    pub business_fee_amount: Option<u128>,
    pub business_fee_percentage: Option<u64>,
    pub error_message: Option<Seq<char>>,
}

pub open spec fn view_opt_string(o: Option<String>) -> Option<Seq<char>> {
    match o {
        Some(s) => Some(s@),
        None => None,
    }
}

impl View for DepositRecord {
    type V = DepositRecordV;

    open spec fn view(&self) -> DepositRecordV {
        DepositRecordV {
            id: self.id,
            eth_tx_hash: self.eth_tx_hash@,
            eth_from_address: self.eth_from_address@,
            amount: self.amount@,
            glitch_address: self.glitch_address@,
            state: self.state,
            glitch_tx_hash: view_opt_string(self.glitch_tx_hash),
            business_fee_amount: self.business_fee_amount,
            business_fee_percentage: self.business_fee_percentage,
            error_message: view_opt_string(self.error_message),
        }
    }
}

/// Per-network scan bookkeeping: the watermark of fully committed blocks and
/// the business fee accumulated since the last settlement.
#[derive(Debug)]
pub struct NetworkScanState {
    pub name: String,
    pub network: String,
    pub monitor_address: String,
    pub last_block: u64,
    pub accumulated_fees: u128,
}

#[verifier::ext_equal]
pub struct NetworkScanStateV {
    pub name: Seq<char>,
    pub network: Seq<char>,
    pub monitor_address: Seq<char>,
    pub last_block: u64,
    pub accumulated_fees: u128,
}

impl View for NetworkScanState {
    type V = NetworkScanStateV;

    open spec fn view(&self) -> NetworkScanStateV {
        NetworkScanStateV {
            name: self.name@,
            network: self.network@,
            monitor_address: self.monitor_address@,
            last_block: self.last_block,
            accumulated_fees: self.accumulated_fees,
        }
    }
}

/// Append-only record of one treasury settlement.
#[derive(Debug)]
pub struct FeePayment {
    pub glitch_tx_hash: String,
    pub amount: u128,
    pub time: String,
}

#[verifier::ext_equal]
pub struct FeePaymentV {
    pub glitch_tx_hash: Seq<char>,
    pub amount: u128,
    pub time: Seq<char>,
}

impl View for FeePayment {
    type V = FeePaymentV;

    open spec fn view(&self) -> FeePaymentV {
        FeePaymentV {
            glitch_tx_hash: self.glitch_tx_hash@,
            amount: self.amount,
            time: self.time@,
        }
    }
}

/// The whole store at one instant.
#[verifier::ext_equal]
pub struct StoreModel {
    pub scan_states: Seq<NetworkScanStateV>,
    pub deposits: Seq<DepositRecordV>,
    pub fee_payments: Seq<FeePaymentV>,
    pub next_id: u128,
}

/// Some scan state carries this scanner name.
pub open spec fn has_scan_state(ss: Seq<NetworkScanStateV>, name: Seq<char>) -> bool {
    exists|i: int| 0 <= i < ss.len() && #[trigger] ss[i].name == name
}

/// Some deposit carries this source transaction hash.
pub open spec fn has_hash(ds: Seq<DepositRecordV>, h: Seq<char>) -> bool {
    exists|i: int| 0 <= i < ds.len() && #[trigger] ds[i].eth_tx_hash == h
}

/// The record the store creates for a draft: freshly identified, waiting to
/// be processed, with no outcome fields set.
pub open spec fn record_of(d: DepositDraftV, id: u128) -> DepositRecordV {
    DepositRecordV {
        id: id,
        eth_tx_hash: d.eth_tx_hash,
        eth_from_address: d.eth_from_address,
        amount: d.amount,
        glitch_address: d.glitch_address,
        state: DepositState::ToProcess,
        glitch_tx_hash: None,
        business_fee_amount: None,
        business_fee_percentage: None,
        error_message: None,
    }
}

/// Inserts one draft: skipped when its hash is already present (the
/// deduplication that makes catch-up idempotent) or when the identifier
/// space is exhausted.
pub open spec fn insert_one(m: StoreModel, d: DepositDraftV) -> StoreModel {
    if has_hash(m.deposits, d.eth_tx_hash) || m.next_id == u128::MAX {
        m
    } else {
        StoreModel {
            deposits: m.deposits.push(record_of(d, m.next_id)),
            next_id: (m.next_id + 1) as u128,
            ..m
        }
    }
}

/// Inserts a batch of drafts in order, each deduplicated by hash.
pub open spec fn insert_drafts(m: StoreModel, ds: Seq<DepositDraftV>) -> StoreModel
    decreases ds.len(),
{
    if ds.len() == 0 {
        m
    } else {
        insert_drafts(insert_one(m, ds[0]), ds.drop_first())
    }
}

/// Advances the watermark of `name`, never letting it regress.
pub open spec fn set_block_if_at_least(
    ss: Seq<NetworkScanStateV>,
    name: Seq<char>,
    block: u64,
) -> Seq<NetworkScanStateV> {
    ss.map(
        |i: int, s: NetworkScanStateV|
            if s.name == name && s.last_block <= block {
                NetworkScanStateV { last_block: block, ..s }
            } else {
                s
            },
    )
}

/// Adds to the accumulated fee counter of `name`; an increment that would
/// overflow the counter is not applied.
pub open spec fn add_fee(
    ss: Seq<NetworkScanStateV>,
    name: Seq<char>,
    amount: u128,
) -> Seq<NetworkScanStateV> {
    ss.map(
        |i: int, s: NetworkScanStateV|
            if s.name == name && s.accumulated_fees + amount <= u128::MAX {
                NetworkScanStateV {
                    accumulated_fees: (s.accumulated_fees + amount) as u128,
                    ..s
                }
            } else {
                s
            },
    )
}

/// Overwrites the accumulated fee counter of `name`.
pub open spec fn set_fee(
    ss: Seq<NetworkScanStateV>,
    name: Seq<char>,
    amount: u128,
) -> Seq<NetworkScanStateV> {
    ss.map(
        |i: int, s: NetworkScanStateV|
            if s.name == name {
                NetworkScanStateV { accumulated_fees: amount, ..s }
            } else {
                s
            },
    )
}

/// Marks a waiting deposit as in flight.
pub open spec fn set_dep_processing(ds: Seq<DepositRecordV>, id: u128) -> Seq<DepositRecordV> {
    ds.map(
        |i: int, d: DepositRecordV|
            if d.id == id && d.state == DepositState::ToProcess {
                DepositRecordV { state: DepositState::Processing, ..d }
            } else {
                d
            },
    )
}

/// Settles an in-flight deposit, recording the destination transaction and
/// the fee taken.
pub open spec fn set_dep_processed(
    ds: Seq<DepositRecordV>,
    id: u128,
    glitch_tx_hash: Seq<char>,
    business_fee_amount: u128,
    business_fee_percentage: u64,
) -> Seq<DepositRecordV> {
    ds.map(
        |i: int, d: DepositRecordV|
            if d.id == id && d.state == DepositState::Processing {
                DepositRecordV {
                    state: DepositState::Processed,
                    glitch_tx_hash: Some(glitch_tx_hash),
                    business_fee_amount: Some(business_fee_amount),
                    business_fee_percentage: Some(business_fee_percentage),
                    ..d
                }
            } else {
                d
            },
    )
}

/// Rejects a waiting deposit with a descriptive message.
pub open spec fn set_dep_error(
    ds: Seq<DepositRecordV>,
    id: u128,
    message: Seq<char>,
) -> Seq<DepositRecordV> {
    ds.map(
        |i: int, d: DepositRecordV|
            if d.id == id && d.state == DepositState::ToProcess {
                DepositRecordV { state: DepositState::Error, error_message: Some(message), ..d }
            } else {
                d
            },
    )
}

/// What the transfer engine reads of a waiting deposit: identity, declared
/// destination and declared amount.
#[derive(Debug)]
pub struct TxToProcess {
    pub id: u128,
    pub glitch_address: String,
    pub amount: String,
}

#[verifier::ext_equal]
pub struct TxToProcessV {
    pub id: u128,
    pub glitch_address: Seq<char>,
    pub amount: Seq<char>,
}

impl View for TxToProcess {
    type V = TxToProcessV;

    open spec fn view(&self) -> TxToProcessV {
        TxToProcessV {
            id: self.id,
            glitch_address: self.glitch_address@,
            amount: self.amount@,
        }
    }
}

/// The engine's projection of a deposit record.
pub open spec fn tx_of(d: DepositRecordV) -> TxToProcessV {
    TxToProcessV { id: d.id, glitch_address: d.glitch_address, amount: d.amount }
}

/// The deposits still waiting to be processed, in store order.
pub open spec fn pending_of(ds: Seq<DepositRecordV>) -> Seq<TxToProcessV>
    decreases ds.len(),
{
    if ds.len() == 0 {
        Seq::<TxToProcessV>::empty()
    } else if ds[0].state == DepositState::ToProcess {
        seq![tx_of(ds[0])] + pending_of(ds.drop_first())
    } else {
        pending_of(ds.drop_first())
    }
}

/// Every mutation the relay performs against the store.
pub enum StoreOp {
    GetOrCreate { name: Seq<char>, network: Seq<char>, monitor_address: Seq<char> },
    AdvanceAndInsert { name: Seq<char>, block: u64, drafts: Seq<DepositDraftV> },
    InsertDeposits { drafts: Seq<DepositDraftV> },
    SetProcessing { id: u128 },
    SetProcessed {
        id: u128,
        glitch_tx_hash: Seq<char>,
        business_fee_amount: u128,
        business_fee_percentage: u64,
    },
    SetError { id: u128, message: Seq<char> },
    IncrementFee { name: Seq<char>, amount: u128 },
    SetFee { name: Seq<char>, amount: u128 },
    RecordFeePayment { name: Seq<char>, glitch_tx_hash: Seq<char>, amount: u128, time: Seq<char> },
}

/// Transition semantics of one store operation. Each operation is total:
/// where its precondition in the running system does not hold (an unknown
/// name, a deposit in the wrong state) it leaves the store unchanged.
pub open spec fn apply_op(m: StoreModel, op: StoreOp) -> StoreModel {
    match op {
        StoreOp::GetOrCreate { name, network, monitor_address } => {
            if has_scan_state(m.scan_states, name) {
                m
            } else {
                StoreModel {
                    scan_states: m.scan_states.push(
                        NetworkScanStateV {
                            name: name,
                            network: network,
                            monitor_address: monitor_address,
                            last_block: 0,
                            accumulated_fees: 0,
                        },
                    ),
                    ..m
                }
            }
        },
        StoreOp::AdvanceAndInsert { name, block, drafts } => {
            let m1 = insert_drafts(m, drafts);
            StoreModel { scan_states: set_block_if_at_least(m1.scan_states, name, block), ..m1 }
        },
        StoreOp::InsertDeposits { drafts } => insert_drafts(m, drafts),
        StoreOp::SetProcessing { id } => StoreModel {
            deposits: set_dep_processing(m.deposits, id),
            ..m
        },
        StoreOp::SetProcessed { id, glitch_tx_hash, business_fee_amount, business_fee_percentage } => StoreModel {
            deposits: set_dep_processed(
                m.deposits,
                id,
                glitch_tx_hash,
                business_fee_amount,
                business_fee_percentage,
            ),
            ..m
        },
        StoreOp::SetError { id, message } => StoreModel {
            deposits: set_dep_error(m.deposits, id, message),
            ..m
        },
        StoreOp::IncrementFee { name, amount } => StoreModel {
            scan_states: add_fee(m.scan_states, name, amount),
            ..m
        },
        StoreOp::SetFee { name, amount } => StoreModel {
            scan_states: set_fee(m.scan_states, name, amount),
            ..m
        },
        StoreOp::RecordFeePayment { name, glitch_tx_hash, amount, time } => StoreModel {
            scan_states: set_fee(m.scan_states, name, 0),
            fee_payments: m.fee_payments.push(
                FeePaymentV { glitch_tx_hash: glitch_tx_hash, amount: amount, time: time },
            ),
            ..m
        },
    }
}

/// A sequence of operations applied in order.
pub open spec fn apply_ops(m: StoreModel, ops: Seq<StoreOp>) -> StoreModel
    decreases ops.len(),
{
    if ops.len() == 0 {
        m
    } else {
        apply_ops(apply_op(m, ops[0]), ops.drop_first())
    }
}

/// Well-formedness the store maintains: deposit identifiers are unique and
/// below the allocator, scanner names are unique.
pub open spec fn store_wf(m: StoreModel) -> bool {
    &&& forall|i: int| 0 <= i < m.deposits.len() ==> (#[trigger] m.deposits[i].id) < m.next_id
    &&& forall|i: int, j: int|
        0 <= i < j < m.deposits.len() ==> (#[trigger] m.deposits[i].id) != (
        #[trigger] m.deposits[j].id)
    &&& forall|i: int, j: int|
        0 <= i < j < m.scan_states.len() ==> (#[trigger] m.scan_states[i].name) != (
        #[trigger] m.scan_states[j].name)
}

/// Batch insertion only appends: earlier records keep their positions and
/// values, the other tables are untouched, and the identifier allocator
/// never moves backwards.
pub proof fn lemma_insert_drafts_effects(m: StoreModel, ds: Seq<DepositDraftV>)
    ensures
        insert_drafts(m, ds).scan_states == m.scan_states,
        insert_drafts(m, ds).fee_payments == m.fee_payments,
        insert_drafts(m, ds).deposits.len() >= m.deposits.len(),
        insert_drafts(m, ds).next_id >= m.next_id,
        forall|i: int|
            0 <= i < m.deposits.len() ==> insert_drafts(m, ds).deposits[i] == m.deposits[i],
    decreases ds.len(),
{
    if ds.len() > 0 {
        let m1 = insert_one(m, ds[0]);
        lemma_insert_drafts_effects(m1, ds.drop_first());
        assert forall|i: int|
            0 <= i < m.deposits.len() implies insert_drafts(m, ds).deposits[i]
            == m.deposits[i] by {
            assert(m1.deposits[i] == m.deposits[i]);
            assert(insert_drafts(m1, ds.drop_first()).deposits[i] == m1.deposits[i]);
        }
    }
}

/// A hash present before a batch insertion is still present after it.
pub proof fn lemma_insert_drafts_hash_mono(m: StoreModel, ds: Seq<DepositDraftV>, h: Seq<char>)
    requires
        has_hash(m.deposits, h),
    ensures
        has_hash(insert_drafts(m, ds).deposits, h),
{
    lemma_insert_drafts_effects(m, ds);
    let i = choose|i: int| 0 <= i < m.deposits.len() && m.deposits[i].eth_tx_hash == h;
    assert(insert_drafts(m, ds).deposits[i].eth_tx_hash == h);
}

/// After a batch insertion, every draft of the batch is represented: its
/// hash is recorded, unless the identifier space ran out.
pub proof fn lemma_insert_drafts_covers(m: StoreModel, ds: Seq<DepositDraftV>)
    ensures
        forall|k: int|
            0 <= k < ds.len() ==> has_hash(
                insert_drafts(m, ds).deposits,
                (#[trigger] ds[k]).eth_tx_hash,
            ) || insert_drafts(m, ds).next_id == u128::MAX,
    decreases ds.len(),
{
    if ds.len() > 0 {
        let m1 = insert_one(m, ds[0]);
        let rest = ds.drop_first();
        lemma_insert_drafts_covers(m1, rest);
        lemma_insert_drafts_effects(m1, rest);
        assert forall|k: int|
            0 <= k < ds.len() implies has_hash(
            insert_drafts(m, ds).deposits,
            (#[trigger] ds[k]).eth_tx_hash,
        ) || insert_drafts(m, ds).next_id == u128::MAX by {
            if k == 0 {
                if insert_drafts(m, ds).next_id != u128::MAX {
                    if has_hash(m.deposits, ds[0].eth_tx_hash) {
                        lemma_insert_drafts_hash_mono(m1, rest, ds[0].eth_tx_hash);
                    } else if m.next_id == u128::MAX {
                        assert(m1 == m);
                        assert(insert_drafts(m1, rest).next_id == u128::MAX);
                    } else {
                        assert(m1.deposits.last().eth_tx_hash == ds[0].eth_tx_hash);
                        assert(has_hash(m1.deposits, ds[0].eth_tx_hash));
                        lemma_insert_drafts_hash_mono(m1, rest, ds[0].eth_tx_hash);
                    }
                }
            } else {
                assert(rest[k - 1] == ds[k]);
            }
        }
    }
}

/// A batch whose every hash is already recorded changes nothing.
pub proof fn lemma_insert_drafts_stable(m: StoreModel, ds: Seq<DepositDraftV>)
    requires
        forall|k: int|
            0 <= k < ds.len() ==> has_hash(m.deposits, (#[trigger] ds[k]).eth_tx_hash)
                || m.next_id == u128::MAX,
    ensures
        insert_drafts(m, ds) == m,
    decreases ds.len(),
{
    if ds.len() > 0 {
        assert(insert_one(m, ds[0]) == m);
        assert forall|k: int|
            0 <= k < ds.drop_first().len() implies has_hash(
            m.deposits,
            (#[trigger] ds.drop_first()[k]).eth_tx_hash,
        ) || m.next_id == u128::MAX by {
            assert(ds.drop_first()[k] == ds[k + 1]);
        }
        lemma_insert_drafts_stable(m, ds.drop_first());
    }
}

/// Catch-up is idempotent: inserting the deposits decoded from an unchanged
/// block range a second time changes nothing, because every deposit is
/// deduplicated by its source transaction hash.
pub proof fn lemma_catch_up_idempotent(m: StoreModel, ds: Seq<DepositDraftV>)
    ensures
        insert_drafts(insert_drafts(m, ds), ds) == insert_drafts(m, ds),
{
    lemma_insert_drafts_covers(m, ds);
    lemma_insert_drafts_stable(insert_drafts(m, ds), ds);
}

/// No store operation ever rewrites a terminal deposit: once a record is
/// `Processed` or `Error` it stays exactly as it is, and records are never
/// deleted.
pub proof fn lemma_op_preserves_terminal(m: StoreModel, op: StoreOp)
    ensures
        apply_op(m, op).deposits.len() >= m.deposits.len(),
        forall|i: int|
            0 <= i < m.deposits.len() && is_terminal((#[trigger] m.deposits[i]).state)
                ==> apply_op(m, op).deposits[i] == m.deposits[i],
{
    match op {
        StoreOp::AdvanceAndInsert { name, block, drafts } => {
            lemma_insert_drafts_effects(m, drafts);
        },
        StoreOp::InsertDeposits { drafts } => {
            lemma_insert_drafts_effects(m, drafts);
        },
        _ => {},
    }
}

/// Any change a store operation makes to an existing deposit follows the
/// lifecycle: waiting to in-flight, waiting to rejected, or in-flight to
/// settled; every other aspect of the record it leaves alone.
pub proof fn lemma_op_steps_follow_lifecycle(m: StoreModel, op: StoreOp, i: int)
    requires
        0 <= i < m.deposits.len(),
    ensures
        apply_op(m, op).deposits[i] == m.deposits[i] || can_step(
            m.deposits[i].state,
            apply_op(m, op).deposits[i].state,
        ),
{
    match op {
        StoreOp::AdvanceAndInsert { name, block, drafts } => {
            lemma_insert_drafts_effects(m, drafts);
        },
        StoreOp::InsertDeposits { drafts } => {
            lemma_insert_drafts_effects(m, drafts);
        },
        _ => {},
    }
}

/// Terminal deposits survive any sequence of store operations unchanged.
pub proof fn lemma_ops_preserve_terminal(m: StoreModel, ops: Seq<StoreOp>)
    ensures
        apply_ops(m, ops).deposits.len() >= m.deposits.len(),
        forall|i: int|
            0 <= i < m.deposits.len() && is_terminal((#[trigger] m.deposits[i]).state)
                ==> apply_ops(m, ops).deposits[i] == m.deposits[i],
    decreases ops.len(),
{
    if ops.len() > 0 {
        let m1 = apply_op(m, ops[0]);
        lemma_op_preserves_terminal(m, ops[0]);
        lemma_ops_preserve_terminal(m1, ops.drop_first());
    }
}

/// No store operation moves a watermark backwards, renames a scanner, or
/// deletes a scan state.
pub proof fn lemma_op_scan_monotone(m: StoreModel, op: StoreOp)
    ensures
        apply_op(m, op).scan_states.len() >= m.scan_states.len(),
        forall|j: int|
            0 <= j < m.scan_states.len() ==> (#[trigger] apply_op(m, op).scan_states[j]).name
                == m.scan_states[j].name && apply_op(m, op).scan_states[j].last_block
                >= m.scan_states[j].last_block,
{
    match op {
        StoreOp::AdvanceAndInsert { name, block, drafts } => {
            lemma_insert_drafts_effects(m, drafts);
        },
        StoreOp::InsertDeposits { drafts } => {
            lemma_insert_drafts_effects(m, drafts);
        },
        _ => {},
    }
}

/// Watermarks are non-decreasing over any sequence of store operations.
pub proof fn lemma_ops_scan_monotone(m: StoreModel, ops: Seq<StoreOp>)
    ensures
        apply_ops(m, ops).scan_states.len() >= m.scan_states.len(),
        forall|j: int|
            0 <= j < m.scan_states.len() ==> (#[trigger] apply_ops(m, ops).scan_states[j]).name
                == m.scan_states[j].name && apply_ops(m, ops).scan_states[j].last_block
                >= m.scan_states[j].last_block,
    decreases ops.len(),
{
    if ops.len() > 0 {
        let m1 = apply_op(m, ops[0]);
        lemma_op_scan_monotone(m, ops[0]);
        lemma_ops_scan_monotone(m1, ops.drop_first());
    }
}

/// The watermark advances only together with its deposits: after the
/// scanner's atomic commit, every draft of the scanned range is recorded
/// (deduplicated by hash), short of identifier exhaustion. A store error
/// fails the whole operation, so the watermark can never run ahead of
/// blocks whose deposits are missing.
pub proof fn lemma_advance_commits_deposits(
    m: StoreModel,
    name: Seq<char>,
    block: u64,
    drafts: Seq<DepositDraftV>,
)
    ensures
        forall|k: int|
            0 <= k < drafts.len() ==> has_hash(
                apply_op(m, StoreOp::AdvanceAndInsert { name, block, drafts }).deposits,
                (#[trigger] drafts[k]).eth_tx_hash,
            ) || apply_op(m, StoreOp::AdvanceAndInsert { name, block, drafts }).next_id
                == u128::MAX,
{
    lemma_insert_drafts_covers(m, drafts);
}

proof fn lemma_insert_drafts_wf(m: StoreModel, ds: Seq<DepositDraftV>)
    requires
        store_wf(m),
    ensures
        store_wf(insert_drafts(m, ds)),
    decreases ds.len(),
{
    if ds.len() > 0 {
        let m1 = insert_one(m, ds[0]);
        assert(store_wf(m1));
        lemma_insert_drafts_wf(m1, ds.drop_first());
    }
}

/// Every store operation preserves the store's well-formedness.
pub proof fn lemma_op_preserves_wf(m: StoreModel, op: StoreOp)
    requires
        store_wf(m),
    ensures
        store_wf(apply_op(m, op)),
{
    match op {
        StoreOp::AdvanceAndInsert { name, block, drafts } => {
            lemma_insert_drafts_wf(m, drafts);
            lemma_insert_drafts_effects(m, drafts);
        },
        StoreOp::InsertDeposits { drafts } => {
            lemma_insert_drafts_wf(m, drafts);
        },
        _ => {},
    }
}

/// Well-formedness survives any sequence of store operations.
pub proof fn lemma_ops_preserve_wf(m: StoreModel, ops: Seq<StoreOp>)
    requires
        store_wf(m),
    ensures
        store_wf(apply_ops(m, ops)),
    decreases ops.len(),
{
    if ops.len() > 0 {
        lemma_op_preserves_wf(m, ops[0]);
        lemma_ops_preserve_wf(apply_op(m, ops[0]), ops.drop_first());
    }
}

} // verus!
