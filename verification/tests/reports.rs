use cat_indexer::matches::MatchSet;
use cat_indexer::report::{
    generate_cat_report, get_cats_in_range, get_total_cat_txs, report_record, script_to_report,
    REPORT_WINDOW,
};
use cat_indexer::store::IndexStore;
use cat_indexer::tx::{OutPoint, Transaction, TxInput};

fn input(witness: Vec<Vec<u8>>) -> TxInput {
    TxInput { previous_output: OutPoint { txid: vec![0xee; 32], vout: 0 }, witness }
}

fn tx(id: u8) -> Transaction {
    Transaction {
        txid: vec![id; 32],
        raw: vec![id, 0x7e],
        input: vec![input(vec![vec![id], vec![0x51, 0x7e], vec![0xc0]])],
    }
}

fn store_with(start: u64, entries: &[(u64, &[u8])]) -> IndexStore {
    let mut store = IndexStore::new(start);
    for (height, ids) in entries {
        let mut set = MatchSet::new();
        for id in ids.iter() {
            set.insert(tx(*id));
        }
        store.add_matches(*height, &set);
    }
    store
}

#[test]
fn total_counts_from_the_start_height_to_the_margin() {
    let store = store_with(100, &[(100, &[1, 2]), (102, &[3]), (103, &[4, 5, 6])]);
    // the tip less six is 103: heights 100, 101, 102
    assert_eq!(get_total_cat_txs(&store, 109), Some(3));
    // one block more brings height 103 in
    assert_eq!(get_total_cat_txs(&store, 110), Some(6));
    assert_eq!(get_total_cat_txs(&store, 1000), Some(6));
}

#[test]
fn total_skips_what_lies_below_the_start_height() {
    let store = store_with(100, &[(99, &[1]), (100, &[2])]);
    assert_eq!(get_total_cat_txs(&store, 200), Some(1));
}

#[test]
fn total_of_an_empty_range_is_zero() {
    let store = store_with(100, &[(100, &[1, 2])]);
    // a chain shorter than the margin
    assert_eq!(get_total_cat_txs(&store, 0), Some(0));
    assert_eq!(get_total_cat_txs(&store, 5), Some(0));
    // the margin reaches below the start height
    assert_eq!(get_total_cat_txs(&store, 100), Some(0));
    assert_eq!(get_total_cat_txs(&store, 106), Some(0));
    assert_eq!(get_total_cat_txs(&store, 107), Some(2));
}

#[test]
fn series_lists_every_height_once() {
    let store = store_with(0, &[(10, &[1, 2]), (12, &[3])]);
    assert_eq!(get_cats_in_range(&store, 10, 13), vec![(10, 2), (11, 0), (12, 1)]);
    assert_eq!(get_cats_in_range(&store, 9, 11), vec![(9, 0), (10, 2)]);
}

#[test]
fn series_fills_heights_without_entry_with_zero() {
    let store = IndexStore::new(0);
    assert_eq!(get_cats_in_range(&store, 5, 8), vec![(5, 0), (6, 0), (7, 0)]);
}

#[test]
fn series_of_an_empty_range_is_empty() {
    let store = store_with(0, &[(10, &[1])]);
    assert_eq!(get_cats_in_range(&store, 10, 10), Vec::new());
    assert_eq!(get_cats_in_range(&store, 11, 10), Vec::new());
}

#[test]
fn series_works_at_the_top_of_the_range() {
    let store = IndexStore::new(0);
    assert_eq!(
        get_cats_in_range(&store, u64::MAX - 2, u64::MAX),
        vec![(u64::MAX - 2, 0), (u64::MAX - 1, 0)]
    );
}

#[test]
fn script_to_report_is_the_element_before_the_last() {
    assert_eq!(script_to_report(&vec![]), None);
    assert_eq!(script_to_report(&vec![vec![1]]), None);
    assert_eq!(script_to_report(&vec![vec![1], vec![2]]), Some(&vec![1]));
    assert_eq!(script_to_report(&vec![vec![1], vec![2], vec![3]]), Some(&vec![2]));
}

#[test]
fn record_prints_the_script_as_text_and_as_hex() {
    let record = report_record(77, &tx(1));
    assert_eq!(record.height, 77);
    assert_eq!(record.scripts_asm, b"OP_PUSHNUM_1 OP_CAT".to_vec());
    assert_eq!(record.scripts_hex, b"517e".to_vec());
    assert_eq!(record.tx, tx(1));
}

#[test]
fn record_runs_the_scripts_of_all_inputs_together() {
    let transaction = Transaction {
        txid: vec![1; 32],
        raw: vec![0x7e],
        input: vec![
            input(vec![vec![], vec![0x7e], vec![0xc0]]),
            // too short to hold a script
            input(vec![vec![0x7e]]),
            input(vec![]),
            // two elements: the first is printed
            input(vec![vec![0x00, 0xac], vec![0xc1]]),
            input(vec![vec![], vec![0x02, 0xAB, 0x0f, 0x75], vec![0xc0]]),
        ],
    };
    let record = report_record(5, &transaction);
    assert_eq!(
        String::from_utf8(record.scripts_asm).unwrap(),
        "OP_CATOP_0 OP_CHECKSIGOP_PUSHBYTES_2 ab0f OP_DROP"
    );
    assert_eq!(String::from_utf8(record.scripts_hex).unwrap(), "7e00ac02ab0f75");
}

#[test]
fn record_of_a_transaction_without_inputs_is_empty_text() {
    let transaction = Transaction { txid: vec![1; 32], raw: vec![], input: vec![] };
    let record = report_record(5, &transaction);
    assert_eq!(record.scripts_asm, Vec::<u8>::new());
    assert_eq!(record.scripts_hex, Vec::<u8>::new());
}

#[test]
fn hex_covers_every_digit() {
    let script: Vec<u8> = vec![0x01, 0x23, 0x45, 0x67, 0x89, 0xab, 0xcd, 0xef];
    let transaction = Transaction {
        txid: vec![1; 32],
        raw: vec![],
        input: vec![input(vec![script, vec![0xc0]])],
    };
    let record = report_record(5, &transaction);
    assert_eq!(record.scripts_hex, b"0123456789abcdef".to_vec());
}

#[test]
fn report_covers_the_window_below_the_checkpoint() {
    let mut store = store_with(
        0,
        &[(899, &[1]), (900, &[2, 3]), (950, &[4]), (999, &[5]), (1000, &[6])],
    );
    store.set_checkpoint(1000);
    assert_eq!(REPORT_WINDOW, 100);
    let report = generate_cat_report(&store);
    let lines: Vec<(u64, u8)> = report.iter().map(|r| (r.height, r.tx.txid[0])).collect();
    assert_eq!(lines, vec![(900, 2), (900, 3), (950, 4), (999, 5)]);
    assert_eq!(report[0].scripts_asm, b"OP_PUSHNUM_1 OP_CAT".to_vec());
    assert_eq!(report[0].scripts_hex, b"517e".to_vec());
    assert_eq!(report[0].tx, tx(2));
}

#[test]
fn report_window_stops_at_height_zero() {
    let mut store = store_with(0, &[(0, &[1]), (49, &[2]), (50, &[3])]);
    store.set_checkpoint(50);
    let report = generate_cat_report(&store);
    let lines: Vec<(u64, u8)> = report.iter().map(|r| (r.height, r.tx.txid[0])).collect();
    assert_eq!(lines, vec![(0, 1), (49, 2)]);
}

#[test]
fn report_of_an_empty_index_is_empty() {
    let store = IndexStore::new(193536);
    assert!(generate_cat_report(&store).is_empty());
    let store = IndexStore::new(0);
    assert!(generate_cat_report(&store).is_empty());
}

#[test]
fn report_uses_the_start_height_where_no_checkpoint_is_set() {
    let store = store_with(200, &[(150, &[1]), (199, &[2]), (200, &[3])]);
    let report = generate_cat_report(&store);
    let lines: Vec<(u64, u8)> = report.iter().map(|r| (r.height, r.tx.txid[0])).collect();
    assert_eq!(lines, vec![(150, 1), (199, 2)]);
}
