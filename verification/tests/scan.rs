use sighash_scan::ledger::{OutputRecord, OutputRef, UtxoLedger};
use sighash_scan::scan::{
    process_block, run_scan, Block, FetchResult, ScanEvent, ScanTermination, Scanner, Transaction,
    TxInput,
};

fn scan_p2pkh(hash: [u8; 20]) -> Vec<u8> {
    let mut s = vec![0x76, 0xa9, 0x14];
    s.extend_from_slice(&hash);
    s.push(0x88);
    s.push(0xac);
    s
}

fn txid_of(tag: u8) -> Vec<u8> {
    vec![tag; 32]
}

fn coinbase(tag: u8) -> Transaction {
    Transaction {
        txid: txid_of(tag),
        inputs: vec![],
        outputs: vec![OutputRecord { script: vec![0x51], value: 50 }],
    }
}

/// Block 1 of the synthetic chain: its coinbase `txA` creates output
/// `(txA, 0)` with a pay-to-public-key-hash script.
fn block_one(hash: [u8; 20]) -> Block {
    Block {
        txdata: vec![Transaction {
            txid: txid_of(0xa1),
            inputs: vec![],
            outputs: vec![OutputRecord { script: scan_p2pkh(hash), value: 1000 }],
        }],
    }
}

/// Block 2: a coinbase, then a spender of `(txA, 0)` at input index 0 with
/// the given signing script and no outputs (0 >= 0, so the input is
/// considered under the index-gated policy).
fn block_two(script_sig: Vec<u8>) -> Block {
    Block {
        txdata: vec![
            coinbase(0xc2),
            Transaction {
                txid: txid_of(0xb2),
                inputs: vec![TxInput {
                    previous_output: OutputRef { txid: txid_of(0xa1), vout: 0 },
                    script_sig,
                }],
                outputs: vec![],
            },
        ],
    }
}

#[test]
fn scenario_single_sighash_is_found() {
    let hash = [0x11u8; 20];
    let outcomes = vec![
        FetchResult::Delivered(block_one(hash)),
        FetchResult::Delivered(block_two(vec![0x03, 0xaa, 0xbb, 0x03])),
    ];
    let outcome = run_scan(&outcomes);
    assert_eq!(outcome.termination, ScanTermination::Completed);
    assert_eq!(outcome.events.len(), 1);
    match &outcome.events[0] {
        ScanEvent::Found(f) => {
            assert_eq!(f.txid, txid_of(0xb2));
            assert_eq!(f.input_index, 0);
            assert_eq!(f.sighash_flag, 0x03);
            let addr = f.address.as_ref().expect("p2pkh spend derives an address");
            assert_eq!(addr.hash, hash.to_vec());
        },
        _ => panic!("expected a finding"),
    }
}

#[test]
fn scenario_single_anyonecanpay_is_found() {
    let outcomes = vec![
        FetchResult::Delivered(block_one([0x22; 20])),
        FetchResult::Delivered(block_two(vec![0x02, 0x07, 0x83])),
    ];
    let outcome = run_scan(&outcomes);
    assert_eq!(outcome.termination, ScanTermination::Completed);
    assert_eq!(outcome.events.len(), 1);
    match &outcome.events[0] {
        ScanEvent::Found(f) => assert_eq!(f.sighash_flag, 0x83),
        _ => panic!("expected a finding"),
    }
}

#[test]
fn scenario_all_sighash_reports_nothing() {
    let outcomes = vec![
        FetchResult::Delivered(block_one([0x33; 20])),
        FetchResult::Delivered(block_two(vec![0x03, 0xaa, 0xbb, 0x01])),
    ];
    let outcome = run_scan(&outcomes);
    assert_eq!(outcome.termination, ScanTermination::Completed);
    assert!(outcome.events.is_empty());
}

#[test]
fn scenario_opcode_first_reports_nothing() {
    // the spending script's first operation is an opcode, not a push
    let outcomes = vec![
        FetchResult::Delivered(block_one([0x44; 20])),
        FetchResult::Delivered(block_two(vec![0xac, 0x03])),
    ];
    let outcome = run_scan(&outcomes);
    assert_eq!(outcome.termination, ScanTermination::Completed);
    assert!(outcome.events.is_empty());
}

#[test]
fn scenario_illegal_flag_is_reported_and_scan_goes_on() {
    let outcomes = vec![
        FetchResult::Delivered(block_one([0x55; 20])),
        FetchResult::Delivered(block_two(vec![0x03, 0xaa, 0xbb, 0x04])),
    ];
    let outcome = run_scan(&outcomes);
    assert_eq!(outcome.termination, ScanTermination::Completed);
    assert_eq!(outcome.events.len(), 1);
    match &outcome.events[0] {
        ScanEvent::IllegalSighash { txid, input_index, flag } => {
            assert_eq!(txid, &txid_of(0xb2));
            assert_eq!(*input_index, 0);
            assert_eq!(*flag, 0x04);
        },
        _ => panic!("expected an illegal-sighash event"),
    }
}

#[test]
fn scenario_index_gated_input_is_skipped() {
    // same spend, but the spending transaction has one output, so input
    // index 0 < 1 is not considered for analysis
    let mut block = block_two(vec![0x03, 0xaa, 0xbb, 0x03]);
    block.txdata[1].outputs.push(OutputRecord { script: vec![0x51], value: 1 });
    let outcomes = vec![FetchResult::Delivered(block_one([0x66; 20])), FetchResult::Delivered(block)];
    let outcome = run_scan(&outcomes);
    assert_eq!(outcome.termination, ScanTermination::Completed);
    assert!(outcome.events.is_empty());
}

#[test]
fn scenario_gated_input_still_consumes_its_output() {
    // the gated spend in block 2 consumes (txA, 0) without analysing it, so
    // a second spend of the same reference in block 3 is fatal
    let mut gated = block_two(vec![0x03, 0xaa, 0xbb, 0x03]);
    gated.txdata[1].outputs.push(OutputRecord { script: vec![0x51], value: 1 });
    let respend = Block {
        txdata: vec![coinbase(0xc3), Transaction {
            txid: txid_of(0xd3),
            inputs: vec![TxInput {
                previous_output: OutputRef { txid: txid_of(0xa1), vout: 0 },
                script_sig: vec![0x01, 0x03],
            }],
            outputs: vec![],
        }],
    };
    let outcomes = vec![
        FetchResult::Delivered(block_one([0xaa; 20])),
        FetchResult::Delivered(gated),
        FetchResult::Delivered(respend),
    ];
    let outcome = run_scan(&outcomes);
    assert_eq!(outcome.termination, ScanTermination::LedgerInconsistent { height: 2 });
    assert!(outcome.events.is_empty());
}

#[test]
fn scenario_non_coinbase_outputs_are_spendable_later() {
    // block 2's spender leaves an output of its own; block 3 spends it
    let mut second = block_two(vec![0x03, 0xaa, 0xbb, 0x01]);
    second.txdata[1].outputs.push(OutputRecord {
        script: scan_p2pkh([0xbb; 20]),
        value: 3,
    });
    let third = Block {
        txdata: vec![coinbase(0xc3), Transaction {
            txid: txid_of(0xd3),
            inputs: vec![TxInput {
                previous_output: OutputRef { txid: txid_of(0xb2), vout: 0 },
                script_sig: vec![0x01, 0x83],
            }],
            outputs: vec![],
        }],
    };
    let outcomes = vec![
        FetchResult::Delivered(block_one([0xaa; 20])),
        FetchResult::Delivered(second),
        FetchResult::Delivered(third),
    ];
    let outcome = run_scan(&outcomes);
    assert_eq!(outcome.termination, ScanTermination::Completed);
    // block 2's spend was index-gated (0 < 1); block 3's spend is the finding
    assert_eq!(outcome.events.len(), 1);
    match &outcome.events[0] {
        ScanEvent::Found(f) => {
            assert_eq!(f.txid, txid_of(0xd3));
            assert_eq!(f.sighash_flag, 0x83);
            assert_eq!(f.address.as_ref().unwrap().hash, vec![0xbb; 20]);
        },
        _ => panic!("expected a finding"),
    }
}

#[test]
fn scenario_fetch_failure_stops_the_scan() {
    // a block beyond the failure would produce a finding; it must not
    let outcomes = vec![
        FetchResult::Delivered(block_one([0x77; 20])),
        FetchResult::SourceError,
        FetchResult::Delivered(block_two(vec![0x03, 0xaa, 0xbb, 0x03])),
    ];
    let outcome = run_scan(&outcomes);
    assert_eq!(outcome.termination, ScanTermination::FetchFailed { height: 1 });
    assert!(outcome.events.is_empty());
}

#[test]
fn scenario_unknown_reference_is_fatal() {
    // block 2 spends an output that no processed block created
    let mut block = block_two(vec![0x03, 0xaa, 0xbb, 0x03]);
    block.txdata[1].inputs[0].previous_output.txid = txid_of(0xee);
    let outcomes = vec![FetchResult::Delivered(block_one([0x88; 20])), FetchResult::Delivered(block)];
    let outcome = run_scan(&outcomes);
    assert_eq!(outcome.termination, ScanTermination::LedgerInconsistent { height: 1 });
    assert!(outcome.events.is_empty());
}

#[test]
fn process_block_registers_and_resolves_within_one_block() {
    // the spend sits in the same block as the output it consumes
    let mut ledger = UtxoLedger::new();
    let block = Block {
        txdata: vec![
            Transaction {
                txid: txid_of(0xa1),
                inputs: vec![],
                outputs: vec![OutputRecord { script: scan_p2pkh([0x99; 20]), value: 7 }],
            },
            Transaction {
                txid: txid_of(0xb2),
                inputs: vec![TxInput {
                    previous_output: OutputRef { txid: txid_of(0xa1), vout: 0 },
                    script_sig: vec![0x01, 0x83],
                }],
                outputs: vec![],
            },
        ],
    };
    let events = process_block(&mut ledger, &block).expect("block must resolve");
    assert_eq!(events.len(), 1);
    match &events[0] {
        ScanEvent::Found(f) => assert_eq!(f.sighash_flag, 0x83),
        _ => panic!("expected a finding"),
    }
    // the spent output is gone; the spend of it again is inconsistent
    assert!(ledger.consume(&OutputRef { txid: txid_of(0xa1), vout: 0 }).is_err());
}

#[test]
fn scanner_steps_through_heights() {
    let mut scanner = Scanner::new(2);
    assert!(!scanner.done());
    let events = scanner.on_block(&block_one([0x11; 20])).expect("block 0 resolves");
    assert!(events.is_empty());
    assert_eq!(scanner.height, 1);
    assert!(!scanner.done());
    let events = scanner.on_block(&block_two(vec![0x03, 0xaa, 0xbb, 0x03])).expect(
        "block 1 resolves",
    );
    assert_eq!(events.len(), 1);
    assert!(scanner.done());
}

#[test]
fn scanner_with_empty_range_is_done_at_once() {
    let scanner = Scanner::new(0);
    assert!(scanner.done());
    let outcome = run_scan(&vec![]);
    assert_eq!(outcome.termination, ScanTermination::Completed);
    assert!(outcome.events.is_empty());
}

#[test]
fn scanner_reports_the_missing_reference() {
    let mut scanner = Scanner::new(5);
    let err = scanner
        .on_block(&block_two(vec![0x03, 0xaa, 0xbb, 0x03]))
        .expect_err("spend of an unrecorded output must fail");
    assert_eq!(err.txid, txid_of(0xa1));
    assert_eq!(err.vout, 0);
    // the scanner did not advance past the failing height
    assert_eq!(scanner.height, 0);
}
