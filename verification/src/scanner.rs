//! The chain scanner's logic: choosing the block range to scan behind the
//! confirmation margin, decoding deposit-event payloads into deposit drafts,
//! committing a scanned range atomically with the watermark, and classifying
//! the provider error that reports a range limit.

use vstd::prelude::*;
use vstd::slice::slice_subrange;
use vstd::slice::slice_to_vec;
use vstd::utf8::decode_utf8;
use vstd::utf8::valid_utf8;

use crate::model::apply_op;
use crate::model::has_scan_state;
use crate::model::DepositDraft;
use crate::model::DepositDraftV;
use crate::model::StoreOp;
use crate::numeric::be_val;
use crate::numeric::dec_chars_of;
use crate::numeric::hex_chars_of;
use crate::numeric::be_bytes_to_u128;
use crate::numeric::be_word_to_dec_string;
use crate::numeric::hex_0x_string;
use crate::store::RelayStore;

verus! {

/// Digest of the event signature the scanner filters on.
pub uninterp spec fn keccak256_of(s: Seq<char>) -> Seq<u8>;

/// Relies on `web3::signing::keccak256`: the Keccak-256 digest of the
/// string's bytes, 32 bytes long and a function of the input alone.
#[verifier::external_body]
fn keccak256_str(s: &str) -> (r: Vec<u8>)
    ensures
        r@ == keccak256_of(s@),
        r@.len() == 32,
{
    web3::signing::keccak256(s.as_bytes()).to_vec()
}

/// Relies on `String::from_utf8`: succeeds exactly on valid UTF-8 and
/// decodes it, per vstd's model of UTF-8.
#[verifier::external_body]
fn utf8_to_string(bytes: Vec<u8>) -> (r: Option<String>)
    ensures
        match r {
            Some(s) => valid_utf8(bytes@) && s@ == decode_utf8(bytes@),
            None => !valid_utf8(bytes@),
        },
{
    String::from_utf8(bytes).ok()
}

/// The signature of the deposit event the bridge watches for.
pub open spec fn transfer_event_signature() -> Seq<char> {
    "TransferToGlitch(address,string,uint256)"@
}

/// The log topic the scanner filters on: the digest of the deposit event's
/// signature.
pub fn transfer_event_topic() -> (r: Vec<u8>)
    ensures
        r@ == keccak256_of(transfer_event_signature()),
        r@.len() == 32,
{
    keccak256_str("TransferToGlitch(address,string,uint256)")
}

/// A log query for the source ledger: the monitored address, the event
/// topic, and an inclusive block range (`None` meaning the latest block).
#[derive(Debug)]
pub struct LogFilter {
    pub address: String,
    pub topic0: Vec<u8>,
    pub from_block: u64,
    pub to_block: Option<u64>,
}

/// Builds the filter for one scan over `[from_block, to_block]`.
pub fn build_scan_filter(monitor_address: &String, from_block: u64, to_block: Option<u64>) -> (f:
    LogFilter)
    ensures
        f.address@ == monitor_address@,
        f.topic0@ == keccak256_of(transfer_event_signature()),
        f.from_block == from_block,
        f.to_block == to_block,
{
    LogFilter {
        address: monitor_address.clone(),
        topic0: transfer_event_topic(),
        from_block: from_block,
        to_block: to_block,
    }
}

/// One event log as the source ledger reports it: opaque payload bytes,
/// indexed topics of 32 bytes each, and the transaction hash.
#[derive(Debug)]
pub struct RawLog {
    pub data: Vec<u8>,
    pub topics: Vec<Vec<u8>>,
    pub transaction_hash: Vec<u8>,
}

pub struct RawLogV {
    pub data: Seq<u8>,
    pub topics: Seq<Seq<u8>>,
    pub transaction_hash: Seq<u8>,
}

impl View for RawLog {
    type V = RawLogV;

    open spec fn view(&self) -> RawLogV {
        RawLogV {
            data: self.data@,
            topics: self.topics@.map_values(|t: Vec<u8>| t@),
            transaction_hash: self.transaction_hash@,
        }
    }
}

/// Why a log could not be decoded into a deposit draft.
#[derive(Clone, Copy, Debug, PartialEq, Eq, Structural)]
pub enum DecodeError {
    /// The transaction hash is not 32 bytes.
    BadTransactionHashLength,
    /// No indexed depositor topic at position one.
    MissingDepositorTopic,
    /// The depositor topic is not 32 bytes.
    BadTopicLength,
    /// The payload is shorter than its three fixed words.
    PayloadTooShort,
    /// The declared address length reaches past the end of the payload.
    AddressOutOfBounds,
    /// The address bytes are not valid UTF-8.
    InvalidUtf8Address,
}

/// Decoding of one deposit event payload. The payload is a sequence of
/// 32-byte words: word one is the deposit amount, big-endian; word two the
/// byte length of the destination address string; the bytes from word three
/// on hold that string. The depositor is the indexed topic at position one;
/// hashes and addresses are recorded as `0x`-prefixed lowercase hex.
pub open spec fn decode_log_spec(log: RawLogV) -> Result<DepositDraftV, DecodeError> {
    if log.transaction_hash.len() != 32 {
        Err(DecodeError::BadTransactionHashLength)
    } else if log.topics.len() < 2 {
        Err(DecodeError::MissingDepositorTopic)
    } else if log.topics[1].len() != 32 {
        Err(DecodeError::BadTopicLength)
    } else if log.data.len() < 96 {
        Err(DecodeError::PayloadTooShort)
    } else if be_val(log.data.subrange(64, 96)) > log.data.len() - 96 {
        Err(DecodeError::AddressOutOfBounds)
    } else if !valid_utf8(
        log.data.subrange(96, 96 + be_val(log.data.subrange(64, 96)) as int),
    ) {
        Err(DecodeError::InvalidUtf8Address)
    } else {
        Ok(
            DepositDraftV {
                eth_tx_hash: seq!['0', 'x'] + hex_chars_of(log.transaction_hash),
                eth_from_address: seq!['0', 'x'] + hex_chars_of(log.topics[1].subrange(12, 32)),
                amount: dec_chars_of(be_val(log.data.subrange(32, 64))),
                glitch_address: decode_utf8(
                    log.data.subrange(96, 96 + be_val(log.data.subrange(64, 96)) as int),
                ),
            },
        )
    }
}

/// Decodes one event log into a deposit draft, exactly as `decode_log_spec`
/// describes.
pub fn decode_log(log: &RawLog) -> (r: Result<DepositDraft, DecodeError>)
    ensures
        match r {
            Ok(d) => decode_log_spec(log@) == Ok::<DepositDraftV, DecodeError>(d@),
            Err(e) => decode_log_spec(log@) == Err::<DepositDraftV, DecodeError>(e),
        },
{
    if log.transaction_hash.len() != 32 {
        return Err(DecodeError::BadTransactionHashLength);
    }
    if log.topics.len() < 2 {
        return Err(DecodeError::MissingDepositorTopic);
    }
    if log.topics[1].len() != 32 {
        return Err(DecodeError::BadTopicLength);
    }
    if log.data.len() < 96 {
        return Err(DecodeError::PayloadTooShort);
    }
    let amount_word = slice_subrange(self_slice(&log.data), 32, 64);
    let amount_text = be_word_to_dec_string(amount_word);
    let len_word = slice_subrange(self_slice(&log.data), 64, 96);
    let declared_len = match be_bytes_to_u128(len_word) {
        Some(v) => v,
        None => {
            return Err(DecodeError::AddressOutOfBounds);
        },
    };
    if declared_len > (log.data.len() - 96) as u128 {
        return Err(DecodeError::AddressOutOfBounds);
    }
    let n: usize = declared_len as usize;
    let addr_bytes = slice_to_vec(slice_subrange(self_slice(&log.data), 96, 96 + n));
    let glitch_address = match utf8_to_string(addr_bytes) {
        Some(s) => s,
        None => {
            return Err(DecodeError::InvalidUtf8Address);
        },
    };
    let eth_tx_hash = hex_0x_string(self_slice(&log.transaction_hash));
    let from_topic = slice_subrange(self_slice(&log.topics[1]), 12, 32);
    let eth_from_address = hex_0x_string(from_topic);
    let d = DepositDraft {
        eth_tx_hash: eth_tx_hash,
        eth_from_address: eth_from_address,
        amount: amount_text,
        glitch_address: glitch_address,
    };
    proof {
        assert(log@.topics[1] == log.topics@[1]@);
        assert(decode_log_spec(log@) == Ok::<DepositDraftV, DecodeError>(d@));
    }
    Ok(d)
}

/// The drafts of the logs that decode, in order; undecodable logs are
/// dropped.
pub open spec fn decoded_drafts(logs: Seq<RawLogV>) -> Seq<DepositDraftV>
    decreases logs.len(),
{
    if logs.len() == 0 {
        Seq::<DepositDraftV>::empty()
    } else {
        match decode_log_spec(logs[0]) {
            Ok(d) => seq![d] + decoded_drafts(logs.drop_first()),
            Err(_) => decoded_drafts(logs.drop_first()),
        }
    }
}

/// Decodes a batch of logs; reports how many were dropped as undecodable.
pub fn decode_logs(logs: &Vec<RawLog>) -> (r: (Vec<DepositDraft>, usize))
    ensures
        r.0@.map_values(|d: DepositDraft| d@) == decoded_drafts(logs@.map_values(|l: RawLog| l@)),
        r.1 <= logs@.len(),
{
    let ghost all = logs@.map_values(|l: RawLog| l@);
    let mut out: Vec<DepositDraft> = Vec::new();
    let mut skipped: usize = 0;
    proof {
        assert(all.skip(0) =~= all);
        assert(out@.map_values(|d: DepositDraft| d@) =~= Seq::<DepositDraftV>::empty());
        assert(out@.map_values(|d: DepositDraft| d@) + decoded_drafts(all) =~= decoded_drafts(all));
    }
    let n = logs.len();
    let mut i: usize = 0;
    while i < n
        invariant
            0 <= i <= n,
            n == logs@.len(),
            skipped <= i,
            all == logs@.map_values(|l: RawLog| l@),
            decoded_drafts(all) == out@.map_values(|d: DepositDraft| d@) + decoded_drafts(
                all.skip(i as int),
            ),
        decreases n - i,
    {
        let ghost rest = all.skip(i as int);
        proof {
            assert(rest.len() > 0);
            assert(rest[0] == all[i as int]);
            assert(rest.drop_first() =~= all.skip(i as int + 1));
        }
        match decode_log(&logs[i]) {
            Ok(d) => {
                let ghost dv = d@;
                out.push(d);
                proof {
                    assert(out@.map_values(|x: DepositDraft| x@) =~= out@.drop_last().map_values(
                        |x: DepositDraft| x@,
                    ).push(dv));
                    assert(out@.drop_last().map_values(|x: DepositDraft| x@).push(dv)
                        + decoded_drafts(all.skip(i as int + 1)) =~= out@.drop_last().map_values(
                        |x: DepositDraft| x@,
                    ) + (seq![dv] + decoded_drafts(all.skip(i as int + 1))));
                }
            },
            Err(_) => {
                skipped = skipped + 1;
            },
        }
        i = i + 1;
    }
    proof {
        assert(all.skip(n as int) =~= Seq::<RawLogV>::empty());
        assert(out@.map_values(|d: DepositDraft| d@) + decoded_drafts(all.skip(n as int))
            =~= out@.map_values(|d: DepositDraft| d@));
    }
    (out, skipped)
}

/// The newest block the scanner may act on: the head minus the confirmation
/// margin, or nothing while the chain is shorter than the margin.
pub fn scan_target(head: u64, confirmations: u64) -> (r: Option<u64>)
    ensures
        match r {
            Some(t) => head >= confirmations && t == head - confirmations,
            None => head < confirmations,
        },
{
    if head >= confirmations {
        Some(head - confirmations)
    } else {
        None
    }
}

/// An inclusive block range to scan.
pub struct ScanRange {
    pub from_block: u64,
    pub to_block: u64,
}

/// Plans the live scan for a new head: the blocks after the watermark up to
/// the confirmed target. Nothing to scan while the target is not past the
/// watermark, so the watermark never regresses and a range is never scanned
/// twice by the live path.
pub fn plan_block_scan(watermark: u64, head: u64, confirmations: u64) -> (r: Option<ScanRange>)
    ensures
        match r {
            Some(g) => head >= confirmations && head - confirmations > watermark && g.from_block
                == watermark + 1 && g.to_block == head - confirmations,
            None => head < confirmations || head - confirmations <= watermark,
        },
{
    match scan_target(head, confirmations) {
        Some(target) => {
            if target > watermark {
                Some(ScanRange { from_block: watermark + 1, to_block: target })
            } else {
                None
            }
        },
        None => None,
    }
}

/// Commits one scanned range: decodes the logs and, as one atomic store
/// operation, inserts the new deposits and advances the watermark to the top
/// of the range. Returns how many logs were dropped as undecodable.
pub fn scan_commit(store: &mut RelayStore, name: &String, to_block: u64, logs: &Vec<RawLog>) -> (skipped: usize)
    ensures
        final(store)@ == apply_op(
            old(store)@,
            StoreOp::AdvanceAndInsert {
                name: name@,
                block: to_block,
                drafts: decoded_drafts(logs@.map_values(|l: RawLog| l@)),
            },
        ),
        skipped <= logs@.len(),
{
    let (drafts, skipped) = decode_logs(logs);
    store.update_block_and_insert_txs(name, to_block, &drafts);
    skipped
}

/// Starts a catch-up pass after a (re)connect: creates the scan state on
/// first sight and reports nothing to do, otherwise hands back the first
/// block after the persisted watermark.
pub fn catch_up_start(
    store: &mut RelayStore,
    name: &String,
    network: &String,
    monitor_address: &String,
) -> (r: Option<u64>)
    ensures
        final(store)@ == apply_op(
            old(store)@,
            StoreOp::GetOrCreate {
                name: name@,
                network: network@,
                monitor_address: monitor_address@,
            },
        ),
        r is Some ==> has_scan_state(old(store)@.scan_states, name@),
        r is None ==> !has_scan_state(old(store)@.scan_states, name@) || (exists|j: int|
            0 <= j < final(store)@.scan_states.len()
                && (#[trigger] final(store)@.scan_states[j]).name == name@
                && final(store)@.scan_states[j].last_block == u64::MAX),
        match r {
            Some(from) => exists|j: int|
                0 <= j < final(store)@.scan_states.len()
                    && (#[trigger] final(store)@.scan_states[j]).name == name@
                    && from == final(store)@.scan_states[j].last_block + 1,
            None => true,
        },
{
    let existed = store.exists_network_state(name, network, monitor_address);
    if !existed {
        return None;
    }
    match store.get_last_block(name) {
        Some(wm) => {
            if wm == u64::MAX {
                None
            } else {
                Some(wm + 1)
            }
        },
        None => None,
    }
}

/// Commits the logs a catch-up pass fetched: inserts the decoded deposits,
/// deduplicated by source transaction hash, without touching the watermark
/// (the live path owns watermark advancement). Returns how many logs were
/// dropped as undecodable.
pub fn catch_up_commit(store: &mut RelayStore, logs: &Vec<RawLog>) -> (skipped: usize)
    ensures
        final(store)@ == apply_op(
            old(store)@,
            StoreOp::InsertDeposits { drafts: decoded_drafts(logs@.map_values(|l: RawLog| l@)) },
        ),
        skipped <= logs@.len(),
{
    let (drafts, skipped) = decode_logs(logs);
    store.insert_txs(&drafts);
    skipped
}

fn self_slice(v: &Vec<u8>) -> (r: &[u8])
    ensures
        r@ == v@,
{
    v.as_slice()
}

/// A hex digit character, either case.
pub open spec fn is_hex_digit(c: char) -> bool {
    ||| (48 <= c as u32 && c as u32 <= 57)
    ||| (97 <= c as u32 && c as u32 <= 102)
    ||| (65 <= c as u32 && c as u32 <= 70)
}

/// Numeric value of a hex digit character.
pub open spec fn hex_digit_val(c: char) -> nat {
    if 48 <= c as u32 && c as u32 <= 57 {
        (c as u32 - 48) as nat
    } else if 97 <= c as u32 && c as u32 <= 102 {
        (c as u32 - 87) as nat
    } else {
        (c as u32 - 55) as nat
    }
}

/// Value of a sequence of hex digit characters, most significant first.
pub open spec fn hex_val(s: Seq<char>) -> nat
    decreases s.len(),
{
    if s.len() == 0 {
        0
    } else {
        hex_val(s.drop_last()) * 16 + hex_digit_val(s.last())
    }
}

/// A hex literal starts at `i`: `0x` or `0X` followed by a hex digit.
pub open spec fn hex_literal_at(s: Seq<char>, i: int) -> bool {
    &&& 0 <= i
    &&& i + 3 <= s.len()
    &&& s[i] == '0'
    &&& (s[i + 1] == 'x' || s[i + 1] == 'X')
    &&& is_hex_digit(s[i + 2])
}

/// Position of the first hex literal at or after `i`.
pub open spec fn first_hex_literal_from(s: Seq<char>, i: int) -> Option<int>
    decreases s.len() - i,
{
    if i < 0 || i + 3 > s.len() {
        None
    } else if hex_literal_at(s, i) {
        Some(i)
    } else {
        first_hex_literal_from(s, i + 1)
    }
}

/// End of the run of hex digits starting at `j`.
pub open spec fn hex_run_end(s: Seq<char>, j: int) -> int
    decreases s.len() - j,
{
    if 0 <= j < s.len() && is_hex_digit(s[j]) {
        hex_run_end(s, j + 1)
    } else {
        j
    }
}

/// The block-number hint inside a provider's range-limit error message: the
/// value of the first `0x` hex literal, where one occurs and fits a block
/// number.
pub open spec fn range_hint_spec(s: Seq<char>) -> Option<u64> {
    match first_hex_literal_from(s, 0) {
        None => None,
        Some(i) => {
            let e = hex_run_end(s, i + 2);
            if hex_val(s.subrange(i + 2, e)) <= u64::MAX {
                Some(hex_val(s.subrange(i + 2, e)) as u64)
            } else {
                None
            }
        },
    }
}

proof fn lemma_hex_val_take_step(s: Seq<char>, a: int, j: int)
    requires
        0 <= a <= j < s.len(),
    ensures
        hex_val(s.subrange(a, j + 1)) == hex_val(s.subrange(a, j)) * 16 + hex_digit_val(s[j]),
{
    assert(s.subrange(a, j + 1).drop_last() =~= s.subrange(a, j));
    assert(s.subrange(a, j + 1).last() == s[j]);
}

proof fn lemma_hex_val_mono(s: Seq<char>, a: int, j: int, e: int)
    requires
        0 <= a <= j <= e <= s.len(),
    ensures
        hex_val(s.subrange(a, j)) <= hex_val(s.subrange(a, e)),
    decreases e - j,
{
    if j < e {
        lemma_hex_val_take_step(s, a, j);
        assert(hex_val(s.subrange(a, j)) * 16 >= hex_val(s.subrange(a, j))) by (nonlinear_arith);
        lemma_hex_val_mono(s, a, j + 1, e);
    }
}

proof fn lemma_hex_run_end_eq(s: Seq<char>, a: int, j: int)
    requires
        0 <= a <= j <= s.len(),
        forall|k: int| a <= k < j ==> is_hex_digit(#[trigger] s[k]),
        j == s.len() || !is_hex_digit(s[j]),
    ensures
        hex_run_end(s, a) == j,
    decreases j - a,
{
    if a < j {
        lemma_hex_run_end_eq(s, a + 1, j);
    }
}

proof fn lemma_hex_run_end_bounds(s: Seq<char>, a: int)
    requires
        0 <= a <= s.len(),
    ensures
        a <= hex_run_end(s, a) <= s.len(),
        forall|k: int| a <= k < hex_run_end(s, a) ==> is_hex_digit(#[trigger] s[k]),
        hex_run_end(s, a) == s.len() || !is_hex_digit(s[hex_run_end(s, a)]),
    decreases s.len() - a,
{
    if a < s.len() && is_hex_digit(s[a]) {
        lemma_hex_run_end_bounds(s, a + 1);
    }
}

/// Classifies a provider error message from a log query: where it embeds a
/// `0x` block-number literal (the permitted upper bound some providers
/// report for an oversized range), extracts it so catch-up can retry with a
/// narrower range. A message without such a literal, or with one too large
/// for a block number, gives no hint.
pub fn parse_range_error_hint(msg: &str) -> (r: Option<u64>)
    ensures
        r == range_hint_spec(msg@),
{
    let n = msg.unicode_len();
    if n < 3 {
        return None;
    }
    let mut i: usize = 0;
    let mut hit: bool = false;
    while i <= n - 3 && !hit
        invariant
            0 <= i <= n - 2,
            3 <= n == msg@.len(),
            first_hex_literal_from(msg@, 0) == first_hex_literal_from(msg@, i as int),
            hit ==> i <= n - 3 && hex_literal_at(msg@, i as int),
        decreases n - i + (if hit { 0int } else { 1int }),
    {
        let c0 = msg.get_char(i);
        let c1 = msg.get_char(i + 1);
        let c2 = msg.get_char(i + 2);
        let u2 = c2 as u32;
        let c2_hex = (48 <= u2 && u2 <= 57) || (97 <= u2 && u2 <= 102) || (65 <= u2 && u2 <= 70);
        if c0 == '0' && (c1 == 'x' || c1 == 'X') && c2_hex {
            hit = true;
        } else {
            assert(!hex_literal_at(msg@, i as int));
            i = i + 1;
        }
    }
    if !hit {
        assert(first_hex_literal_from(msg@, i as int) is None);
        return None;
    }
    assert(first_hex_literal_from(msg@, 0) == Some(i as int));
    let start: usize = i + 2;
    let mut j: usize = start;
    let mut acc: u64 = 0;
    while j < n
        invariant_except_break
            start <= j <= n,
            3 <= n == msg@.len(),
            start == i + 2,
            i + 3 <= n,
            first_hex_literal_from(msg@, 0) == Some(i as int),
            forall|k: int| start <= k < j ==> is_hex_digit(#[trigger] msg@[k]),
            acc == hex_val(msg@.subrange(start as int, j as int)),
        ensures
            start <= j <= n,
            start == i + 2,
            first_hex_literal_from(msg@, 0) == Some(i as int),
            n == msg@.len(),
            forall|k: int| start <= k < j ==> is_hex_digit(#[trigger] msg@[k]),
            j == n || !is_hex_digit(msg@[j as int]),
            acc == hex_val(msg@.subrange(start as int, j as int)),
        decreases n - j,
    {
        let c = msg.get_char(j);
        let u = c as u32;
        let d: u64 = if 48 <= u && u <= 57 {
            (u - 48) as u64
        } else if 97 <= u && u <= 102 {
            (u - 87) as u64
        } else if 65 <= u && u <= 70 {
            (u - 55) as u64
        } else {
            break ;
        };
        proof {
            lemma_hex_val_take_step(msg@, start as int, j as int);
        }
        let next = match acc.checked_mul(16) {
            Some(m) => m.checked_add(d),
            None => None,
        };
        match next {
            Some(v) => {
                acc = v;
            },
            None => {
                proof {
                    lemma_hex_run_end_bounds(msg@, start as int);
                    assert(is_hex_digit(msg@[j as int]));
                    assert(hex_run_end(msg@, start as int) >= j + 1) by {
                        lemma_hex_run_end_bounds(msg@, start as int);
                        let e = hex_run_end(msg@, start as int);
                        if e <= j {
                            assert(!is_hex_digit(msg@[e]));
                            assert(false);
                        }
                    }
                    lemma_hex_val_mono(
                        msg@,
                        start as int,
                        j + 1,
                        hex_run_end(msg@, start as int),
                    );
                }
                return None;
            },
        }
        j = j + 1;
    }
    proof {
        lemma_hex_run_end_eq(msg@, start as int, j as int);
    }
    Some(acc)
}

} // verus!
