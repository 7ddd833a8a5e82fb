//! The scan driver: processes blocks in height order, registering every
//! transaction output into the UTXO ledger and resolving every non-coinbase
//! input against it, then classifying the spent output's script and reading
//! the sighash flag out of the spending script.
//!
//! Per block: a registration pass records every output of every transaction
//! (the coinbase included); a resolution pass then consumes, for every
//! transaction except the first, each input's previous output.  An input is
//! considered for sighash analysis only when its index is not less than its
//! own transaction's output count — a deliberate, index-gated policy that
//! the contracts state explicitly.  A considered input whose spent output is
//! pay-to-public-key or pay-to-public-key-hash and whose spending script
//! starts with a non-empty push yields: a finding when the flag decodes to
//! SIGHASH_SINGLE (with or without ANYONECANPAY), an illegal-sighash event
//! when it does not decode, and nothing otherwise.  Consuming an absent
//! reference is fatal for the whole scan.

use vstd::prelude::*;

use crate::ledger::{key_of, rec_of, OutputRecord, OutputRef, UnknownOutputError, UtxoLedger};
use crate::ledger::copy_bytes;
use crate::script::{classify, classify_spec, derive_address, derive_address_spec, Address, ScriptKind};
use crate::sighash::{decode_sighash, decode_sighash_spec, extract_sighash_byte, extract_sighash_spec, mode_matches, mode_matches_spec};

verus! {

/// A transaction input: the reference of the output it spends and the
/// script that satisfies that output's locking script.
#[derive(Debug)]
pub struct TxInput {
    pub previous_output: OutputRef,
    pub script_sig: Vec<u8>,
}

/// A transaction: its id, its inputs and its outputs, in order.
#[derive(Debug)]
pub struct Transaction {
    pub txid: Vec<u8>,
    pub inputs: Vec<TxInput>,
    pub outputs: Vec<OutputRecord>,
}

/// A block: its transactions in order, the coinbase first.
#[derive(Debug)]
pub struct Block {
    pub txdata: Vec<Transaction>,
}

/// A reportable spend: the spending transaction, the index of the spending
/// input, the flag byte it was signed with, and the address of the spent
/// output where one can be derived.
#[derive(Debug)]
pub struct Finding {
    pub txid: Vec<u8>,
    pub input_index: usize,
    pub sighash_flag: u8,
    pub address: Option<Address>,
}

/// What the resolution pass reports for one input: a finding, or an
/// informational illegal-sighash event for a flag outside the standard
/// encoding.
#[derive(Debug)]
pub enum ScanEvent {
    Found(Finding),
    IllegalSighash { txid: Vec<u8>, input_index: usize, flag: u8 },
}

/// The mathematical content of a [`Finding`].
pub struct FindingModel {
    pub txid: Seq<u8>,
    pub input_index: int,
    pub sighash_flag: u8,
    pub address: Option<Seq<u8>>,
}

/// The mathematical content of a [`ScanEvent`].
pub enum ScanEventModel {
    Found(FindingModel),
    IllegalSighash { txid: Seq<u8>, input_index: int, flag: u8 },
}

impl View for Finding {
    type V = FindingModel;

    open spec fn view(&self) -> FindingModel {
        FindingModel {
            txid: self.txid@,
            input_index: self.input_index as int,
            sighash_flag: self.sighash_flag,
            address: match self.address {
                Some(a) => Some(a.hash@),
                None => None,
            },
        }
    }
}

impl View for ScanEvent {
    type V = ScanEventModel;

    open spec fn view(&self) -> ScanEventModel {
        match self {
            ScanEvent::Found(f) => ScanEventModel::Found(f@),
            ScanEvent::IllegalSighash { txid, input_index, flag } => ScanEventModel::IllegalSighash {
                txid: txid@,
                input_index: *input_index as int,
                flag: *flag,
            },
        }
    }
}

/// The views of a sequence of events.
pub open spec fn events_model(s: Seq<ScanEvent>) -> Seq<ScanEventModel> {
    s.map_values(|e: ScanEvent| e@)
}

/// What the resolution pass reports for one considered input, given the
/// spent output's script and the spending script: nothing when the output
/// is of an unsupported kind or no flag can be extracted; an illegal-sighash
/// event when the flag does not decode; a finding exactly when the mode is
/// SIGHASH_SINGLE with or without ANYONECANPAY.
pub open spec fn input_event(txid: Seq<u8>, j: int, out_script: Seq<u8>, script_sig: Seq<u8>) -> Option<ScanEventModel> {
    if classify_spec(out_script) is Other {
        None
    } else {
        match extract_sighash_spec(script_sig) {
            None => None,
            Some(b) => match decode_sighash_spec(b) {
                None => Some(ScanEventModel::IllegalSighash { txid, input_index: j, flag: b }),
                Some(m) => if mode_matches_spec(m) {
                    Some(
                        ScanEventModel::Found(
                            FindingModel {
                                txid,
                                input_index: j,
                                sighash_flag: b,
                                address: derive_address_spec(out_script),
                            },
                        ),
                    )
                } else {
                    None
                },
            },
        }
    }
}

/// The ledger content after recording the outputs of one transaction from
/// index `i` on, each keyed by the transaction's id and its index.
pub open spec fn register_outputs(
    m: Map<(Seq<u8>, int), (Seq<u8>, u64)>,
    txid: Seq<u8>,
    outs: Seq<OutputRecord>,
    i: int,
) -> Map<(Seq<u8>, int), (Seq<u8>, u64)>
    decreases outs.len() - i,
{
    if i < 0 || i >= outs.len() {
        m
    } else {
        register_outputs(m.insert((txid, i), rec_of(outs[i])), txid, outs, i + 1)
    }
}

/// The ledger content after the registration pass over the transactions
/// from index `t` on.
pub open spec fn register_txs(
    m: Map<(Seq<u8>, int), (Seq<u8>, u64)>,
    txs: Seq<Transaction>,
    t: int,
) -> Map<(Seq<u8>, int), (Seq<u8>, u64)>
    decreases txs.len() - t,
{
    if t < 0 || t >= txs.len() {
        m
    } else {
        register_txs(register_outputs(m, txs[t].txid@, txs[t].outputs@, 0), txs, t + 1)
    }
}

/// The events an optional event contributes.
pub open spec fn opt_event(ev: Option<ScanEventModel>) -> Seq<ScanEventModel> {
    match ev {
        Some(e) => seq![e],
        None => Seq::empty(),
    }
}

/// Prefix the event sequence of a successful outcome.
pub open spec fn prepend_events(
    pre: Seq<ScanEventModel>,
    r: Result<(Map<(Seq<u8>, int), (Seq<u8>, u64)>, Seq<ScanEventModel>), (Seq<u8>, int)>,
) -> Result<(Map<(Seq<u8>, int), (Seq<u8>, u64)>, Seq<ScanEventModel>), (Seq<u8>, int)> {
    match r {
        Result::Ok(p) => Result::Ok((p.0, pre + p.1)),
        Result::Err(e) => Result::Err(e),
    }
}

/// Prefixing twice is prefixing the concatenation.
proof fn lemma_prepend_compose(
    a: Seq<ScanEventModel>,
    b: Seq<ScanEventModel>,
    r: Result<(Map<(Seq<u8>, int), (Seq<u8>, u64)>, Seq<ScanEventModel>), (Seq<u8>, int)>,
)
    ensures
        prepend_events(a, prepend_events(b, r)) == prepend_events(a + b, r),
{
    match r {
        Result::Ok(p) => {
            assert(a + (b + p.1) =~= (a + b) + p.1);
        },
        Result::Err(_) => {
        },
    }
}

/// The resolution of one transaction's inputs from index `j` on: each input
/// consumes its previous output from the ledger — the first absent
/// reference is the fatal error — and a considered input (index not less
/// than the transaction's output count) contributes its event.
pub open spec fn resolve_inputs(
    m: Map<(Seq<u8>, int), (Seq<u8>, u64)>,
    tx: Transaction,
    j: int,
) -> Result<(Map<(Seq<u8>, int), (Seq<u8>, u64)>, Seq<ScanEventModel>), (Seq<u8>, int)>
    decreases tx.inputs@.len() - j,
{
    if j < 0 || j >= tx.inputs@.len() {
        Result::Ok((m, Seq::empty()))
    } else {
        let k = key_of(tx.inputs@[j].previous_output);
        if !m.contains_key(k) {
            Result::Err(k)
        } else {
            let ev: Option<ScanEventModel> = if j >= tx.outputs@.len() {
                input_event(tx.txid@, j, m[k].0, tx.inputs@[j].script_sig@)
            } else {
                None
            };
            prepend_events(opt_event(ev), resolve_inputs(m.remove(k), tx, j + 1))
        }
    }
}

/// The resolution pass over the transactions from index `t` on (the driver
/// starts it at 1: the coinbase resolves nothing).
pub open spec fn resolve_txs(
    m: Map<(Seq<u8>, int), (Seq<u8>, u64)>,
    txs: Seq<Transaction>,
    t: int,
) -> Result<(Map<(Seq<u8>, int), (Seq<u8>, u64)>, Seq<ScanEventModel>), (Seq<u8>, int)>
    decreases txs.len() - t,
{
    if t < 0 || t >= txs.len() {
        Result::Ok((m, Seq::empty()))
    } else {
        match resolve_inputs(m, txs[t], 0) {
            Result::Err(e) => Result::Err(e),
            Result::Ok(p) => prepend_events(p.1, resolve_txs(p.0, txs, t + 1)),
        }
    }
}

/// What one block does to the ledger and what it reports: registration of
/// every output, then resolution of every non-coinbase input.
pub open spec fn block_spec(m: Map<(Seq<u8>, int), (Seq<u8>, u64)>, b: Block) -> Result<
    (Map<(Seq<u8>, int), (Seq<u8>, u64)>, Seq<ScanEventModel>),
    (Seq<u8>, int),
> {
    resolve_txs(register_txs(m, b.txdata@, 0), b.txdata@, 1)
}

/// Analyse one considered input.
fn analyze_input(txid: &Vec<u8>, j: usize, out_script: &Vec<u8>, script_sig: &Vec<u8>) -> (r:
    Option<ScanEvent>)
    ensures
        match input_event(txid@, j as int, out_script@, script_sig@) {
            Some(em) => r matches Some(e) && e@ == em,
            None => r is None,
        },
{
    let kind = classify(out_script);
    if kind == ScriptKind::Other {
        return None;
    }
    match extract_sighash_byte(script_sig) {
        None => None,
        Some(b) => match decode_sighash(b) {
            Result::Err(_) => Some(
                ScanEvent::IllegalSighash { txid: copy_bytes(txid), input_index: j, flag: b },
            ),
            Result::Ok(m) => if mode_matches(m) {
                Some(
                    ScanEvent::Found(
                        Finding {
                            txid: copy_bytes(txid),
                            input_index: j,
                            sighash_flag: b,
                            address: derive_address(out_script),
                        },
                    ),
                )
            } else {
                None
            },
        },
    }
}

/// Appending an event appends its view.
proof fn lemma_events_model_push(s: Seq<ScanEvent>, e: ScanEvent)
    ensures
        events_model(s.push(e)) == events_model(s).push(e@),
{
    assert(events_model(s.push(e)) =~= events_model(s).push(e@));
}

/// Resolve every input of one non-coinbase transaction against the ledger,
/// appending the events the transaction contributes.  The first input whose
/// previous output is absent ends the resolution with its reference.
fn resolve_tx(ledger: &mut UtxoLedger, tx: &Transaction, events: &mut Vec<ScanEvent>) -> (res:
    Result<(), UnknownOutputError>)
    requires
        old(ledger).wf(),
    ensures
        final(ledger).wf(),
        match resolve_inputs(old(ledger)@, *tx, 0) {
            Result::Ok(p) => {
                &&& res matches Result::Ok(_)
                &&& final(ledger)@ == p.0
                &&& events_model(final(events)@) == events_model(old(events)@) + p.1
            },
            Result::Err(k) => res matches Result::Err(e) && (e.txid@, e.vout as int) == k,
        },
{
    let ghost m0 = ledger@;
    let ghost e0 = events@;
    let ghost mut collected: Seq<ScanEventModel> = Seq::empty();
    let mut j: usize = 0;
    while j < tx.inputs.len()
        invariant
            ledger.wf(),
            j <= tx.inputs@.len(),
            m0 == old(ledger)@,
            e0 == old(events)@,
            events_model(events@) == events_model(e0) + collected,
            resolve_inputs(m0, *tx, 0) == prepend_events(
                collected,
                resolve_inputs(ledger@, *tx, j as int),
            ),
        decreases tx.inputs@.len() - j,
    {
        let input = &tx.inputs[j];
        let ghost mb = ledger@;
        let ghost k = key_of(input.previous_output);
        match ledger.consume(&input.previous_output) {
            Result::Err(e) => {
                proof {
                    assert(resolve_inputs(mb, *tx, j as int) == Result::<
                        (Map<(Seq<u8>, int), (Seq<u8>, u64)>, Seq<ScanEventModel>),
                        (Seq<u8>, int),
                    >::Err(k));
                }
                return Result::Err(e);
            },
            Result::Ok(rec) => {
                let ghost evm = if j >= tx.outputs@.len() {
                    input_event(tx.txid@, j as int, mb[k].0, tx.inputs@[j as int].script_sig@)
                } else {
                    None
                };
                proof {
                    assert(rec.script@ == mb[k].0);
                    assert(resolve_inputs(mb, *tx, j as int) == prepend_events(
                        opt_event(evm),
                        resolve_inputs(mb.remove(k), *tx, j as int + 1),
                    ));
                }
                let ev: Option<ScanEvent> = if j >= tx.outputs.len() {
                    analyze_input(&tx.txid, j, &rec.script, &input.script_sig)
                } else {
                    None
                };
                let ghost eb = events@;
                match ev {
                    Some(e) => {
                        proof {
                            assert(evm matches Some(em) && e@ == em);
                        }
                        events.push(e);
                        proof {
                            lemma_events_model_push(eb, e);
                        }
                    },
                    None => {
                        proof {
                            assert(evm is None);
                        }
                    },
                }
                proof {
                    lemma_prepend_compose(
                        collected,
                        opt_event(evm),
                        resolve_inputs(ledger@, *tx, j as int + 1),
                    );
                    collected = collected + opt_event(evm);
                    assert(events_model(events@) =~= events_model(e0) + collected);
                }
                j = j + 1;
            },
        }
    }
    proof {
        assert(resolve_inputs(ledger@, *tx, j as int) == Result::<
            (Map<(Seq<u8>, int), (Seq<u8>, u64)>, Seq<ScanEventModel>),
            (Seq<u8>, int),
        >::Ok((ledger@, Seq::empty())));
        assert(collected + Seq::<ScanEventModel>::empty() =~= collected);
    }
    Result::Ok(())
}

/// Process one block: register every output of every transaction, then
/// resolve every input of every transaction but the coinbase, reporting the
/// events of the considered inputs.  Fails with the first unresolvable
/// reference; a failed block contributes no events.
pub fn process_block(ledger: &mut UtxoLedger, block: &Block) -> (res: Result<
    Vec<ScanEvent>,
    UnknownOutputError,
>)
    requires
        old(ledger).wf(),
    ensures
        final(ledger).wf(),
        match block_spec(old(ledger)@, *block) {
            Result::Ok(p) => {
                &&& res matches Result::Ok(events)
                &&& final(ledger)@ == p.0
                &&& events_model(events@) == p.1
            },
            Result::Err(k) => res matches Result::Err(e) && (e.txid@, e.vout as int) == k,
        },
{
    let ghost m0 = ledger@;
    let mut t: usize = 0;
    while t < block.txdata.len()
        invariant
            ledger.wf(),
            t <= block.txdata@.len(),
            register_txs(m0, block.txdata@, 0) == register_txs(ledger@, block.txdata@, t as int),
        decreases block.txdata@.len() - t,
    {
        let tx = &block.txdata[t];
        let ghost m1 = ledger@;
        let mut i: usize = 0;
        while i < tx.outputs.len()
            invariant
                ledger.wf(),
                i <= tx.outputs@.len(),
                register_outputs(m1, tx.txid@, tx.outputs@, 0) == register_outputs(
                    ledger@,
                    tx.txid@,
                    tx.outputs@,
                    i as int,
                ),
            decreases tx.outputs@.len() - i,
        {
            let ghost mb = ledger@;
            let rec = tx.outputs[i].clone();
            ledger.record(OutputRef { txid: copy_bytes(&tx.txid), vout: i }, rec);
            proof {
                assert(ledger@ == mb.insert(
                    (tx.txid@, i as int),
                    rec_of(tx.outputs@[i as int]),
                ));
                assert(register_outputs(mb, tx.txid@, tx.outputs@, i as int) == register_outputs(
                    mb.insert((tx.txid@, i as int), rec_of(tx.outputs@[i as int])),
                    tx.txid@,
                    tx.outputs@,
                    i as int + 1,
                ));
            }
            i = i + 1;
        }
        proof {
            assert(register_txs(m1, block.txdata@, t as int) == register_txs(
                register_outputs(m1, block.txdata@[t as int].txid@, block.txdata@[t as int].outputs@, 0),
                block.txdata@,
                t as int + 1,
            ));
        }
        t = t + 1;
    }
    let ghost mreg = ledger@;
    proof {
        assert(mreg == register_txs(m0, block.txdata@, 0));
    }
    let mut events: Vec<ScanEvent> = Vec::new();
    let mut t: usize = 1;
    while t < block.txdata.len()
        invariant
            ledger.wf(),
            1 <= t,
            t as int <= block.txdata@.len() || t == 1,
            m0 == old(ledger)@,
            mreg == register_txs(m0, block.txdata@, 0),
            resolve_txs(mreg, block.txdata@, 1) == prepend_events(
                events_model(events@),
                resolve_txs(ledger@, block.txdata@, t as int),
            ),
        decreases block.txdata@.len() - t,
    {
        let tx = &block.txdata[t];
        let ghost mb = ledger@;
        let ghost eb = events@;
        match resolve_tx(ledger, tx, &mut events) {
            Result::Err(e) => {
                proof {
                    let k = (e.txid@, e.vout as int);
                    assert(resolve_inputs(mb, *tx, 0) == Result::<
                        (Map<(Seq<u8>, int), (Seq<u8>, u64)>, Seq<ScanEventModel>),
                        (Seq<u8>, int),
                    >::Err(k));
                    assert(resolve_txs(mb, block.txdata@, t as int) == Result::<
                        (Map<(Seq<u8>, int), (Seq<u8>, u64)>, Seq<ScanEventModel>),
                        (Seq<u8>, int),
                    >::Err(k));
                }
                return Result::Err(e);
            },
            Result::Ok(_) => {
                proof {
                    let p = resolve_inputs(mb, *tx, 0)->Ok_0;
                    assert(resolve_txs(mb, block.txdata@, t as int) == prepend_events(
                        p.1,
                        resolve_txs(p.0, block.txdata@, t as int + 1),
                    ));
                    lemma_prepend_compose(
                        events_model(eb),
                        p.1,
                        resolve_txs(ledger@, block.txdata@, t as int + 1),
                    );
                }
                t = t + 1;
            },
        }
    }
    proof {
        assert(resolve_txs(ledger@, block.txdata@, t as int) == Result::<
            (Map<(Seq<u8>, int), (Seq<u8>, u64)>, Seq<ScanEventModel>),
            (Seq<u8>, int),
        >::Ok((ledger@, Seq::empty())));
        assert(events_model(events@) + Seq::<ScanEventModel>::empty() =~= events_model(events@));
    }
    Result::Ok(events)
}

/// The driver's state between blocks: the ledger so far, the next height to
/// ask the block source for, and the first height not to scan.  The caller
/// fetches the block for `height` and hands it to [`Scanner::on_block`];
/// any fetch failure is fatal and simply ends the loop.
#[derive(Debug)]
pub struct Scanner {
    pub ledger: UtxoLedger,
    pub height: u64,
    pub max_height: u64,
}

impl Scanner {
    /// A scan of heights `0 .. max_height`, with an empty ledger.
    pub fn new(max_height: u64) -> (r: Self)
        ensures
            r.ledger.wf(),
            r.ledger@ == Map::<(Seq<u8>, int), (Seq<u8>, u64)>::empty(),
            r.height == 0,
            r.max_height == max_height,
    {
        Scanner { ledger: UtxoLedger::new(), height: 0, max_height }
    }

    /// Whether the configured range is exhausted and the scan ends normally.
    pub fn done(&self) -> (r: bool)
        ensures
            r == (self.height >= self.max_height),
    {
        self.height >= self.max_height
    }

    /// Feed the block of the current height; on success the scanner advances
    /// to the next height, on an unresolvable reference the scan is over and
    /// the scanner stays where it failed.
    pub fn on_block(&mut self, block: &Block) -> (res: Result<Vec<ScanEvent>, UnknownOutputError>)
        requires
            old(self).ledger.wf(),
            old(self).height < old(self).max_height,
        ensures
            final(self).ledger.wf(),
            final(self).max_height == old(self).max_height,
            match block_spec(old(self).ledger@, *block) {
                Result::Ok(p) => {
                    &&& res matches Result::Ok(events)
                    &&& final(self).ledger@ == p.0
                    &&& events_model(events@) == p.1
                    &&& final(self).height == old(self).height + 1
                },
                Result::Err(k) => {
                    &&& res matches Result::Err(e) && (e.txid@, e.vout as int) == k
                    &&& final(self).height == old(self).height
                },
            },
    {
        let res = process_block(&mut self.ledger, block);
        match res {
            Result::Ok(events) => {
                self.height = self.height + 1;
                Result::Ok(events)
            },
            Result::Err(e) => Result::Err(e),
        }
    }
}

/// What the block source came back with for one height.
#[derive(Debug)]
pub enum FetchResult {
    Delivered(Block),
    SourceError,
}

/// How a scan ended: the whole range processed, or stopped cold at the
/// height whose block could not be fetched or whose input could not be
/// resolved.
#[derive(Clone, Copy, Debug, PartialEq, Eq, Structural)]
pub enum ScanTermination {
    Completed,
    FetchFailed { height: usize },
    LedgerInconsistent { height: usize },
}

/// The events a scan reported, and how it ended.
#[derive(Debug)]
pub struct ScanOutcome {
    pub events: Vec<ScanEvent>,
    pub termination: ScanTermination,
}

/// A scan from height `h` on, over what the block source returns per
/// height, starting from ledger content `m`: blocks are processed in height
/// order; the first fetch failure or unresolvable reference ends the scan
/// at its height, and no later block contributes anything.
pub open spec fn scan_spec(
    m: Map<(Seq<u8>, int), (Seq<u8>, u64)>,
    outs: Seq<FetchResult>,
    h: int,
) -> (ScanTermination, Seq<ScanEventModel>)
    decreases outs.len() - h,
{
    if h < 0 || h >= outs.len() {
        (ScanTermination::Completed, Seq::empty())
    } else {
        match outs[h] {
            FetchResult::SourceError => (
                ScanTermination::FetchFailed { height: h as usize },
                Seq::empty(),
            ),
            FetchResult::Delivered(b) => match block_spec(m, b) {
                Result::Err(k) => (
                    ScanTermination::LedgerInconsistent { height: h as usize },
                    Seq::empty(),
                ),
                Result::Ok(p) => (
                    scan_spec(p.0, outs, h + 1).0,
                    p.1 + scan_spec(p.0, outs, h + 1).1,
                ),
            },
        }
    }
}

/// Run a whole scan over the per-height answers of a block source, from an
/// empty ledger.  The outcome holds exactly the events of the processed
/// prefix, in order, and says how the scan ended: a failure at height `h`
/// terminates the scan at once, so no block beyond `h` is processed and no
/// event of a later height is reported.
pub fn run_scan(outcomes: &Vec<FetchResult>) -> (r: ScanOutcome)
    ensures
        r.termination == scan_spec(
            Map::<(Seq<u8>, int), (Seq<u8>, u64)>::empty(),
            outcomes@,
            0,
        ).0,
        events_model(r.events@) == scan_spec(
            Map::<(Seq<u8>, int), (Seq<u8>, u64)>::empty(),
            outcomes@,
            0,
        ).1,
{
    let ghost m0 = Map::<(Seq<u8>, int), (Seq<u8>, u64)>::empty();
    let mut ledger = UtxoLedger::new();
    let mut events: Vec<ScanEvent> = Vec::new();
    let mut h: usize = 0;
    while h < outcomes.len()
        invariant
            ledger.wf(),
            h <= outcomes@.len(),
            m0 == Map::<(Seq<u8>, int), (Seq<u8>, u64)>::empty(),
            scan_spec(m0, outcomes@, 0).0 == scan_spec(ledger@, outcomes@, h as int).0,
            scan_spec(m0, outcomes@, 0).1 == events_model(events@) + scan_spec(
                ledger@,
                outcomes@,
                h as int,
            ).1,
        decreases outcomes@.len() - h,
    {
        let ghost mb = ledger@;
        let ghost eb = events@;
        match &outcomes[h] {
            FetchResult::SourceError => {
                proof {
                    assert(scan_spec(mb, outcomes@, h as int).0 == ScanTermination::FetchFailed {
                        height: h,
                    });
                    assert(scan_spec(mb, outcomes@, h as int).1 =~= Seq::<ScanEventModel>::empty());
                    assert(events_model(events@) + Seq::<ScanEventModel>::empty() =~= events_model(
                        events@,
                    ));
                }
                return ScanOutcome {
                    events,
                    termination: ScanTermination::FetchFailed { height: h },
                };
            },
            FetchResult::Delivered(b) => {
                match process_block(&mut ledger, b) {
                    Result::Err(_) => {
                        proof {
                            assert(scan_spec(mb, outcomes@, h as int).0
                                == ScanTermination::LedgerInconsistent { height: h });
                            assert(events_model(events@) + Seq::<ScanEventModel>::empty()
                                =~= events_model(events@));
                        }
                        return ScanOutcome {
                            events,
                            termination: ScanTermination::LedgerInconsistent { height: h },
                        };
                    },
                    Result::Ok(mut new_events) => {
                        proof {
                            let p = block_spec(mb, outcomes@[h as int]->Delivered_0)->Ok_0;
                            assert(scan_spec(mb, outcomes@, h as int).1 == p.1 + scan_spec(
                                p.0,
                                outcomes@,
                                h as int + 1,
                            ).1);
                        }
                        let ghost nb = new_events@;
                        events.append(&mut new_events);
                        proof {
                            assert(events_model(events@) =~= events_model(eb) + events_model(nb));
                            assert(events_model(eb) + (events_model(nb) + scan_spec(
                                ledger@,
                                outcomes@,
                                h as int + 1,
                            ).1) =~= (events_model(eb) + events_model(nb)) + scan_spec(
                                ledger@,
                                outcomes@,
                                h as int + 1,
                            ).1);
                        }
                        h = h + 1;
                    },
                }
            },
        }
    }
    proof {
        assert(events_model(events@) + Seq::<ScanEventModel>::empty() =~= events_model(events@));
    }
    ScanOutcome { events, termination: ScanTermination::Completed }
}

} // verus!
