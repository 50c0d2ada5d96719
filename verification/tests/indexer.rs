use cat_indexer::error::IndexError;
use cat_indexer::indexer::{Action, Event, Indexer, ScanState};
use cat_indexer::report::{get_cats_in_range, get_total_cat_txs};
use cat_indexer::scan::{
    gather_matches, input_matches, parse_block, scan_limit, Candidate, Strategy, SAFETY_MARGIN,
};
use cat_indexer::store::IndexStore;
use cat_indexer::tx::{Block, OutPoint, Transaction, TxInput};

fn p2tr_script() -> Vec<u8> {
    let mut script = vec![0x51, 0x20];
    script.extend_from_slice(&[0xab; 32]);
    script
}

fn p2wpkh_script() -> Vec<u8> {
    let mut script = vec![0x00, 0x14];
    script.extend_from_slice(&[0x01; 20]);
    script
}

fn input(prev: u8, witness: Vec<Vec<u8>>) -> TxInput {
    TxInput { previous_output: OutPoint { txid: vec![prev; 32], vout: prev as u32 }, witness }
}

fn cat_witness() -> Vec<Vec<u8>> {
    vec![vec![0x01], vec![0x51, 0x51, 0x7e], vec![0xc0; 33]]
}

fn plain_witness() -> Vec<Vec<u8>> {
    vec![vec![0x30; 64], vec![0x20, 0xac], vec![0xc0; 33]]
}

/// A transaction with one input whose tapscript uses `OP_CAT`.
fn cat_tx(id: u8) -> Transaction {
    Transaction { txid: vec![id; 32], raw: vec![2, 0, 0x51, 0x51, 0x7e, id], input: vec![input(id, cat_witness())] }
}

/// A transaction that uses no `OP_CAT`.
fn plain_tx(id: u8) -> Transaction {
    Transaction { txid: vec![id; 32], raw: vec![2, 0, 0x20, 0xac, id], input: vec![input(id, plain_witness())] }
}

fn block(txdata: Vec<Transaction>) -> Block {
    Block { txdata }
}

/// Runs the indexer against a chain until it comes to rest, and hands back
/// every action it asked for.
fn drive(
    indexer: Indexer,
    tip: u64,
    chain: &dyn Fn(u64) -> Block,
    prevout: &dyn Fn(&OutPoint) -> Option<Vec<u8>>,
) -> (Indexer, Vec<Action>) {
    let mut log = Vec::new();
    let (mut indexer, mut action) = indexer.step(Event::Start { tip });
    loop {
        let event = match &action {
            Action::FetchBlock { height } => Event::Block(chain(*height)),
            Action::ResolvePrevouts { outpoints } => {
                Event::Prevouts(outpoints.iter().map(|o| prevout(o)).collect())
            }
            Action::PersistMatches { .. } | Action::PersistCheckpoint { .. } => Event::Persisted,
            Action::Finish | Action::Abort { .. } | Action::Wait => {
                log.push(action);
                return (indexer, log);
            }
        };
        log.push(action);
        let next = indexer.step(event);
        indexer = next.0;
        action = next.1;
    }
}

fn fetched(log: &[Action]) -> Vec<u64> {
    let mut heights = Vec::new();
    for action in log {
        if let Action::FetchBlock { height } = action {
            heights.push(*height);
        }
    }
    heights
}

fn taproot(_: &OutPoint) -> Option<Vec<u8>> {
    Some(p2tr_script())
}

fn empty_chain(_: u64) -> Block {
    block(Vec::new())
}

#[test]
fn scan_limit_is_six_below_the_tip() {
    assert_eq!(SAFETY_MARGIN, 6);
    assert_eq!(scan_limit(0), 0);
    assert_eq!(scan_limit(5), 0);
    assert_eq!(scan_limit(6), 0);
    assert_eq!(scan_limit(7), 1);
    assert_eq!(scan_limit(193542), 193536);
    assert_eq!(scan_limit(u64::MAX), u64::MAX - 6);
}

#[test]
fn strictest_strategy_is_the_default() {
    assert_eq!(Strategy::default(), Strategy::PrevoutConfirmed);
}

#[test]
fn new_indexer_is_idle_and_waits() {
    let indexer = Indexer::new(Strategy::PrevoutConfirmed, IndexStore::new(100));
    assert_eq!(indexer.state(), ScanState::Idle);
    assert_eq!(indexer.strategy(), Strategy::PrevoutConfirmed);
    let (indexer, action) = indexer.step(Event::Persisted);
    assert_eq!(action, Action::Wait);
    assert_eq!(indexer.state(), ScanState::Idle);
    let (indexer, action) = indexer.step(Event::Failed(IndexError::Store));
    assert_eq!(action, Action::Wait);
    assert_eq!(indexer.state(), ScanState::Idle);
}

#[test]
fn short_chain_gives_nothing_to_scan() {
    for tip in [0u64, 5, 6] {
        let indexer = Indexer::new(Strategy::PrevoutConfirmed, IndexStore::new(0));
        let (indexer, action) = indexer.step(Event::Start { tip });
        assert_eq!(action, Action::Finish);
        assert_eq!(indexer.state(), ScanState::Completed);
        assert_eq!(indexer.store().stored_checkpoint(), None);
    }
    let indexer = Indexer::new(Strategy::PrevoutConfirmed, IndexStore::new(0));
    let (indexer, action) = indexer.step(Event::Start { tip: 7 });
    assert_eq!(action, Action::FetchBlock { height: 0 });
    assert_eq!(indexer.state(), ScanState::Running);
}

#[test]
fn scan_stops_six_below_the_tip() {
    let indexer = Indexer::new(Strategy::PrevoutConfirmed, IndexStore::new(100));
    let (indexer, log) = drive(indexer, 110, &empty_chain, &taproot);
    assert_eq!(fetched(&log), vec![100, 101, 102, 103]);
    assert_eq!(indexer.state(), ScanState::Completed);
    assert_eq!(indexer.store().get_checkpoint(), 104);
    // the tip moves on by one: one more height, and no more
    let (indexer, log) = drive(indexer, 111, &empty_chain, &taproot);
    assert_eq!(fetched(&log), vec![104]);
    assert_eq!(indexer.store().get_checkpoint(), 105);
}

#[test]
fn start_height_at_the_limit_gives_nothing_to_scan() {
    let indexer = Indexer::new(Strategy::PrevoutConfirmed, IndexStore::new(104));
    let (indexer, log) = drive(indexer, 110, &empty_chain, &taproot);
    assert_eq!(log, vec![Action::Finish]);
    assert_eq!(indexer.store().stored_checkpoint(), None);
}

#[test]
fn rerun_with_the_same_tip_does_nothing() {
    let chain = |height: u64| match height {
        100 => block(vec![cat_tx(1), plain_tx(2)]),
        102 => block(vec![cat_tx(3)]),
        _ => block(vec![plain_tx(4)]),
    };
    let indexer = Indexer::new(Strategy::PrevoutConfirmed, IndexStore::new(100));
    let (indexer, _) = drive(indexer, 109, &chain, &taproot);
    let before = get_cats_in_range(indexer.store(), 90, 120);
    assert_eq!(before[10], (100, 1));
    assert_eq!(before[12], (102, 1));
    let (indexer, log) = drive(indexer, 109, &chain, &taproot);
    assert_eq!(log, vec![Action::Finish]);
    assert_eq!(get_cats_in_range(indexer.store(), 90, 120), before);
    assert_eq!(indexer.store().get_checkpoint(), 103);
}

#[test]
fn scanning_a_range_again_leaves_the_sets_as_they_are() {
    let chain = |height: u64| match height {
        100 => block(vec![cat_tx(1), plain_tx(2), cat_tx(5)]),
        102 => block(vec![cat_tx(3)]),
        _ => block(vec![plain_tx(4)]),
    };
    let indexer = Indexer::new(Strategy::PrevoutConfirmed, IndexStore::new(100));
    let (indexer, _) = drive(indexer, 109, &chain, &taproot);
    let before = get_cats_in_range(indexer.store(), 100, 103);
    assert_eq!(before, vec![(100, 2), (101, 0), (102, 1)]);
    // put the checkpoint back and scan the same heights once more
    let mut store = indexer.into_store();
    store.set_checkpoint(100);
    let indexer = Indexer::new(Strategy::PrevoutConfirmed, store);
    let (indexer, log) = drive(indexer, 109, &chain, &taproot);
    assert_eq!(fetched(&log), vec![100, 101, 102]);
    assert_eq!(get_cats_in_range(indexer.store(), 100, 103), before);
    let first = indexer.store().get_matches(100);
    assert_eq!(first.get(0), Some(&cat_tx(1)));
    assert_eq!(first.get(1), Some(&cat_tx(5)));
}

#[test]
fn three_blocks_with_two_none_and_one_match() {
    let h: u64 = 193536;
    let chain = move |height: u64| {
        if height == h {
            block(vec![plain_tx(9), cat_tx(1), cat_tx(2)])
        } else if height == h + 1 {
            block(vec![plain_tx(3)])
        } else {
            block(vec![cat_tx(4), plain_tx(8)])
        }
    };
    let tip = h + 3 + SAFETY_MARGIN;
    let indexer = Indexer::new(Strategy::PrevoutConfirmed, IndexStore::new(h));
    let (indexer, log) = drive(indexer, tip, &chain, &taproot);
    assert_eq!(fetched(&log), vec![h, h + 1, h + 2]);
    assert_eq!(indexer.state(), ScanState::Completed);
    assert_eq!(get_total_cat_txs(indexer.store(), tip), Some(3));
    assert_eq!(
        get_cats_in_range(indexer.store(), h, h + 3),
        vec![(h, 2), (h + 1, 0), (h + 2, 1)]
    );
    assert_eq!(indexer.store().get_checkpoint(), h + 3);
}

#[test]
fn matches_are_durable_before_the_checkpoint_moves() {
    let chain = |_: u64| block(vec![cat_tx(1)]);
    let indexer = Indexer::new(Strategy::PrevoutConfirmed, IndexStore::new(10));
    let (_, log) = drive(indexer, 17, &chain, &taproot);
    assert_eq!(
        log,
        vec![
            Action::FetchBlock { height: 10 },
            Action::ResolvePrevouts { outpoints: vec![OutPoint { txid: vec![1; 32], vout: 1 }] },
            Action::PersistMatches { height: 10 },
            Action::PersistCheckpoint { height: 11 },
            Action::Finish,
        ]
    );
}

#[test]
fn checkpoint_moves_only_after_the_matches_are_reported_durable() {
    let indexer = Indexer::new(Strategy::Tapscript, IndexStore::new(10));
    let (indexer, _) = indexer.step(Event::Start { tip: 20 });
    let (indexer, action) = indexer.step(Event::Block(block(vec![cat_tx(1)])));
    assert_eq!(action, Action::PersistMatches { height: 10 });
    assert_eq!(indexer.store().count_at(10), 1);
    assert_eq!(indexer.store().get_checkpoint(), 10);
    let (indexer, action) = indexer.step(Event::Persisted);
    assert_eq!(action, Action::PersistCheckpoint { height: 11 });
    assert_eq!(indexer.store().get_checkpoint(), 11);
    let (indexer, action) = indexer.step(Event::Persisted);
    assert_eq!(action, Action::FetchBlock { height: 11 });
    assert_eq!(indexer.state(), ScanState::Running);
}

#[test]
fn block_without_matches_moves_the_checkpoint_at_once() {
    let indexer = Indexer::new(Strategy::PrevoutConfirmed, IndexStore::new(10));
    let (indexer, _) = indexer.step(Event::Start { tip: 20 });
    let (indexer, action) = indexer.step(Event::Block(block(vec![plain_tx(1)])));
    assert_eq!(action, Action::PersistCheckpoint { height: 11 });
    assert!(!indexer.store().has_entry(10));
}

#[test]
fn spent_output_that_is_not_taproot_is_no_match() {
    let chain = |_: u64| block(vec![cat_tx(1), cat_tx(2), cat_tx(3)]);
    let prevout = |outpoint: &OutPoint| match outpoint.vout {
        1 => Some(p2wpkh_script()),
        2 => Some(p2tr_script()),
        _ => None,
    };
    let indexer = Indexer::new(Strategy::PrevoutConfirmed, IndexStore::new(10));
    let (indexer, _) = drive(indexer, 17, &chain, &prevout);
    let matches = indexer.store().get_matches(10);
    assert_eq!(matches.len(), 1);
    assert_eq!(matches.get(0), Some(&cat_tx(2)));
}

#[test]
fn weaker_strategies_ask_for_no_spent_outputs() {
    let chain = |_: u64| block(vec![cat_tx(1), plain_tx(2)]);
    for strategy in [Strategy::ByteScan, Strategy::Tapscript] {
        let indexer = Indexer::new(strategy, IndexStore::new(10));
        let (indexer, log) = drive(indexer, 17, &chain, &|_: &OutPoint| None);
        assert_eq!(
            log,
            vec![
                Action::FetchBlock { height: 10 },
                Action::PersistMatches { height: 10 },
                Action::PersistCheckpoint { height: 11 },
                Action::Finish,
            ]
        );
        assert_eq!(indexer.store().count_at(10), 1);
    }
}

#[test]
fn byte_scan_takes_data_for_the_opcode() {
    // the tapscript pushes the byte 0x7e as data
    let data_tx = Transaction {
        txid: vec![7; 32],
        raw: vec![0x01, 0x7e],
        input: vec![input(7, vec![vec![0x01], vec![0x01, 0x7e], vec![0xc0]])],
    };
    assert!(input_matches(Strategy::ByteScan, &data_tx, 0));
    assert!(!input_matches(Strategy::Tapscript, &data_tx, 0));
    assert!(!input_matches(Strategy::PrevoutConfirmed, &data_tx, 0));
    // an input that the transaction does not have
    assert!(!input_matches(Strategy::ByteScan, &data_tx, 1));
}

#[test]
fn strictest_strategy_skips_a_transaction_without_the_byte() {
    // the encoding handed in holds no 0x7e, so the inputs are not looked at
    let mut odd = cat_tx(1);
    odd.raw = vec![1, 2, 3];
    assert!(input_matches(Strategy::Tapscript, &odd, 0));
    assert!(!input_matches(Strategy::PrevoutConfirmed, &odd, 0));
    assert!(input_matches(Strategy::PrevoutConfirmed, &cat_tx(1), 0));
}

#[test]
fn parse_block_lists_the_passing_inputs_in_order() {
    let two_inputs = Transaction {
        txid: vec![5; 32],
        raw: vec![0x7e],
        input: vec![input(1, cat_witness()), input(2, plain_witness()), input(3, cat_witness())],
    };
    let b = block(vec![plain_tx(1), two_inputs, cat_tx(2)]);
    assert_eq!(
        parse_block(Strategy::PrevoutConfirmed, &b),
        vec![
            Candidate { tx_index: 1, input_index: 0 },
            Candidate { tx_index: 1, input_index: 2 },
            Candidate { tx_index: 2, input_index: 0 },
        ]
    );
    assert_eq!(parse_block(Strategy::Tapscript, &block(Vec::new())), Vec::new());
}

#[test]
fn transaction_with_two_matching_inputs_is_one_match() {
    let two_inputs = Transaction {
        txid: vec![5; 32],
        raw: vec![0x7e],
        input: vec![input(1, cat_witness()), input(2, cat_witness())],
    };
    let b = block(vec![two_inputs.clone(), cat_tx(2)]);
    let candidates = parse_block(Strategy::Tapscript, &b);
    assert_eq!(candidates.len(), 3);
    let set = gather_matches(&b, &candidates, None);
    assert_eq!(set.len(), 2);
    assert_eq!(set.get(0), Some(&two_inputs));
    // only the second input spends a Taproot output: still a match
    let prevouts = vec![Some(p2wpkh_script()), Some(p2tr_script()), None];
    let set = gather_matches(&b, &candidates, Some(&prevouts));
    assert_eq!(set.len(), 1);
    assert_eq!(set.get(0), Some(&two_inputs));
    // too few answers: the candidates without one do not count
    let prevouts = vec![Some(p2wpkh_script())];
    assert_eq!(gather_matches(&b, &candidates, Some(&prevouts)).len(), 0);
    // a place outside the block is passed over
    let stray = vec![Candidate { tx_index: 9, input_index: 0 }];
    assert_eq!(gather_matches(&b, &stray, None).len(), 0);
}

#[test]
fn failed_fetch_ends_the_run_and_keeps_the_checkpoint() {
    let indexer = Indexer::new(Strategy::PrevoutConfirmed, IndexStore::new(10));
    let (indexer, _) = drive(indexer, 17, &empty_chain, &taproot);
    assert_eq!(indexer.store().get_checkpoint(), 11);
    let (indexer, action) = indexer.step(Event::Start { tip: 30 });
    assert_eq!(action, Action::FetchBlock { height: 11 });
    let (indexer, action) = indexer.step(Event::Failed(IndexError::ChainSource));
    assert_eq!(action, Action::Abort { error: IndexError::ChainSource });
    assert_eq!(indexer.state(), ScanState::Failed);
    assert_eq!(indexer.store().get_checkpoint(), 11);
    // at rest, the failure is told again
    let (indexer, action) = indexer.step(Event::Persisted);
    assert_eq!(action, Action::Abort { error: IndexError::ChainSource });
    // the next run takes up the same height
    let (indexer, action) = indexer.step(Event::Start { tip: 30 });
    assert_eq!(action, Action::FetchBlock { height: 11 });
    assert_eq!(indexer.state(), ScanState::Running);
}

#[test]
fn failed_lookup_and_failed_write_end_the_run() {
    let indexer = Indexer::new(Strategy::PrevoutConfirmed, IndexStore::new(10));
    let (indexer, _) = indexer.step(Event::Start { tip: 30 });
    let (indexer, action) = indexer.step(Event::Block(block(vec![cat_tx(1)])));
    assert!(matches!(action, Action::ResolvePrevouts { .. }));
    let (indexer, action) = indexer.step(Event::Failed(IndexError::ChainSource));
    assert_eq!(action, Action::Abort { error: IndexError::ChainSource });
    assert_eq!(indexer.store().get_checkpoint(), 10);
    assert_eq!(indexer.store().count_at(10), 0);

    let (indexer, _) = indexer.step(Event::Start { tip: 30 });
    let (indexer, _) = indexer.step(Event::Block(block(vec![cat_tx(1)])));
    let (indexer, action) = indexer.step(Event::Prevouts(vec![Some(p2tr_script())]));
    assert_eq!(action, Action::PersistMatches { height: 10 });
    let (indexer, action) = indexer.step(Event::Failed(IndexError::Store));
    assert_eq!(action, Action::Abort { error: IndexError::Store });
    assert_eq!(indexer.store().get_checkpoint(), 10);

    // the height is scanned again; the match is not doubled
    let (indexer, log) = drive(indexer, 17, &|_: u64| block(vec![cat_tx(1)]), &taproot);
    assert_eq!(fetched(&log), vec![10]);
    assert_eq!(indexer.store().count_at(10), 1);
    assert_eq!(indexer.store().get_checkpoint(), 11);

    let (indexer, _) = indexer.step(Event::Start { tip: 30 });
    let (indexer, _) = indexer.step(Event::Block(block(Vec::new())));
    let (indexer, action) = indexer.step(Event::Failed(IndexError::Store));
    assert_eq!(action, Action::Abort { error: IndexError::Store });
    assert_eq!(indexer.state(), ScanState::Failed);
}

#[test]
fn every_kind_of_failure_is_handed_on() {
    for kind in [IndexError::ChainSource, IndexError::Store, IndexError::MatchDecode] {
        let indexer = Indexer::new(Strategy::PrevoutConfirmed, IndexStore::new(10));
        let (indexer, _) = indexer.step(Event::Start { tip: 30 });
        let (indexer, action) = indexer.step(Event::Failed(kind));
        assert_eq!(action, Action::Abort { error: kind });
        assert_eq!(indexer.state(), ScanState::Failed);
        assert_eq!(indexer.store().stored_checkpoint(), None);
    }
}

#[test]
fn unexpected_event_has_the_request_repeated() {
    let indexer = Indexer::new(Strategy::PrevoutConfirmed, IndexStore::new(10));
    let (indexer, _) = indexer.step(Event::Start { tip: 30 });
    let (indexer, action) = indexer.step(Event::Persisted);
    assert_eq!(action, Action::FetchBlock { height: 10 });
    let (indexer, action) = indexer.step(Event::Start { tip: 50 });
    assert_eq!(action, Action::FetchBlock { height: 10 });
    let (indexer, action) = indexer.step(Event::Block(block(vec![cat_tx(1), cat_tx(2)])));
    let wanted = Action::ResolvePrevouts {
        outpoints: vec![
            OutPoint { txid: vec![1; 32], vout: 1 },
            OutPoint { txid: vec![2; 32], vout: 2 },
        ],
    };
    assert_eq!(action, wanted);
    // one answer for two questions
    let (indexer, action) = indexer.step(Event::Prevouts(vec![Some(p2tr_script())]));
    assert_eq!(action, wanted);
    let (indexer, action) = indexer.step(Event::Persisted);
    assert_eq!(action, wanted);
    let (indexer, action) =
        indexer.step(Event::Prevouts(vec![Some(p2tr_script()), Some(p2tr_script())]));
    assert_eq!(action, Action::PersistMatches { height: 10 });
    let (indexer, action) = indexer.step(Event::Block(block(Vec::new())));
    assert_eq!(action, Action::PersistMatches { height: 10 });
    let (indexer, action) = indexer.step(Event::Persisted);
    assert_eq!(action, Action::PersistCheckpoint { height: 11 });
    let (indexer, action) = indexer.step(Event::Prevouts(Vec::new()));
    assert_eq!(action, Action::PersistCheckpoint { height: 11 });
    assert_eq!(indexer.store().count_at(10), 2);
    assert_eq!(indexer.state(), ScanState::Running);
}

#[test]
fn completed_indexer_says_so_until_started_again() {
    let indexer = Indexer::new(Strategy::PrevoutConfirmed, IndexStore::new(10));
    let (indexer, _) = drive(indexer, 17, &empty_chain, &taproot);
    let (indexer, action) = indexer.step(Event::Persisted);
    assert_eq!(action, Action::Finish);
    assert_eq!(indexer.state(), ScanState::Completed);
}

#[test]
fn matches_found_before_are_kept_when_a_height_is_scanned_again() {
    let mut store = IndexStore::new(10);
    store.insert_tx(10, cat_tx(9));
    let indexer = Indexer::new(Strategy::PrevoutConfirmed, store);
    let (indexer, _) = drive(indexer, 17, &|_: u64| block(vec![cat_tx(1)]), &taproot);
    let set = indexer.store().get_matches(10);
    assert_eq!(set.len(), 2);
    assert_eq!(set.get(0), Some(&cat_tx(9)));
    assert_eq!(set.get(1), Some(&cat_tx(1)));
}

/// Turns a transaction of the bitcoin crate into the indexer's plain form.
fn plain(tx: &bitcoin::Transaction) -> Transaction {
    let txid = tx.compute_txid();
    let txid: &[u8] = txid.as_ref();
    Transaction {
        txid: txid.to_vec(),
        raw: bitcoin::consensus::serialize(tx),
        input: tx
            .input
            .iter()
            .map(|i| {
                let prev: &[u8] = i.previous_output.txid.as_ref();
                TxInput {
                    previous_output: OutPoint { txid: prev.to_vec(), vout: i.previous_output.vout },
                    witness: i.witness.to_vec(),
                }
            })
            .collect(),
    }
}

fn spend(witness: Vec<Vec<u8>>, lock_time: u32) -> bitcoin::Transaction {
    bitcoin::Transaction {
        version: bitcoin::transaction::Version::TWO,
        lock_time: bitcoin::absolute::LockTime::from_consensus(lock_time),
        input: vec![bitcoin::TxIn {
            previous_output: bitcoin::OutPoint::null(),
            script_sig: bitcoin::ScriptBuf::new(),
            sequence: bitcoin::Sequence::MAX,
            witness: bitcoin::Witness::from_slice(&witness),
        }],
        output: vec![bitcoin::TxOut {
            value: bitcoin::Amount::from_sat(1000),
            script_pubkey: bitcoin::ScriptBuf::from_bytes(p2tr_script()),
        }],
    }
}

#[test]
fn real_transactions_are_matched_by_their_tapscript() {
    let script = bitcoin::script::Builder::new()
        .push_slice([1u8, 2])
        .push_slice([3u8])
        .push_opcode(bitcoin::opcodes::all::OP_CAT)
        .into_script();
    let with_cat = spend(vec![vec![0x01], script.to_bytes(), vec![0xc0; 33]], 1);
    let data_only = spend(vec![vec![0x7e; 4], vec![0x51], vec![0xc0; 33]], 2);
    let chain = move |_: u64| block(vec![plain(&data_only), plain(&with_cat)]);
    let expected = {
        let script = bitcoin::script::Builder::new()
            .push_slice([1u8, 2])
            .push_slice([3u8])
            .push_opcode(bitcoin::opcodes::all::OP_CAT)
            .into_script();
        plain(&spend(vec![vec![0x01], script.to_bytes(), vec![0xc0; 33]], 1))
    };
    let indexer = Indexer::new(Strategy::PrevoutConfirmed, IndexStore::new(0));
    let (indexer, _) = drive(indexer, 7, &chain, &taproot);
    let set = indexer.store().get_matches(0);
    assert_eq!(set.len(), 1);
    assert_eq!(set.get(0), Some(&expected));
    // the byte scan takes both
    let indexer = Indexer::new(Strategy::ByteScan, IndexStore::new(0));
    let (indexer, _) = drive(indexer, 7, &chain, &taproot);
    assert_eq!(indexer.store().count_at(0), 2);
}
