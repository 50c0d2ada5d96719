//! Reports over the index: the total of matches, the count for each height,
//! and the detail of the latest matches.
//!
//! All of them only read the index, and take a height without an entry as a
//! height without matches.

use vstd::prelude::*;
use crate::bytes::append_bytes;
use crate::scan::{index_till, scan_limit};
use crate::script::{disassemble, hex_lower, hex_text, script_asm};
use crate::store::{IndexStore, IndexView};
use crate::tx::{Transaction, TransactionView, TxInputView};

verus! {

/// The number of heights below the checkpoint that the detail report covers.
pub const REPORT_WINDOW: u64 = 100;

/// The number of matches at the heights `from` up to, not including, `till`.
pub open spec fn total_in(index: IndexView, from: u64, till: u64) -> nat
    decreases till - from,
{
    if from >= till {
        0
    } else {
        total_in(index, from, (till - 1) as u64) + index.matches_at((till - 1) as u64).len()
    }
}

/// The element of a witness stack that the detail report prints as the
/// script of an input: the one before the last, where the stack has two
/// elements or more.
pub open spec fn reported_script(stack: Seq<Seq<u8>>) -> Option<Seq<u8>> {
    if stack.len() >= 2 {
        Some(stack[stack.len() - 2])
    } else {
        None
    }
}

/// The assembly texts of the reported scripts of `inputs`, one after the
/// other. An input without such a script adds nothing.
pub open spec fn scripts_asm_of(inputs: Seq<TxInputView>) -> Seq<u8>
    decreases inputs.len(),
{
    if inputs.len() == 0 {
        Seq::empty()
    } else {
        scripts_asm_of(inputs.drop_last()) + match reported_script(inputs.last().witness) {
            Some(script) => script_asm(script),
            None => Seq::empty(),
        }
    }
}

/// The hex texts of the reported scripts of `inputs`, one after the other.
/// An input without such a script adds nothing.
pub open spec fn scripts_hex_of(inputs: Seq<TxInputView>) -> Seq<u8>
    decreases inputs.len(),
{
    if inputs.len() == 0 {
        Seq::empty()
    } else {
        scripts_hex_of(inputs.drop_last()) + match reported_script(inputs.last().witness) {
            Some(script) => hex_lower(script),
            None => Seq::empty(),
        }
    }
}

/// One line of the detail report: a matched transaction, the height at which
/// it was found, and the scripts of its inputs as assembly text and as hex.
#[derive(Debug, PartialEq, Eq)]
pub struct ReportRecord {
    pub height: u64,
    pub scripts_asm: Vec<u8>,
    pub scripts_hex: Vec<u8>,
    pub tx: Transaction,
}

/// A `ReportRecord` as plain values.
pub struct ReportRecordView {
    pub height: u64,
    pub scripts_asm: Seq<u8>,
    pub scripts_hex: Seq<u8>,
    pub tx: TransactionView,
}

impl View for ReportRecord {
    type V = ReportRecordView;

    open spec fn view(&self) -> ReportRecordView {
        ReportRecordView {
            height: self.height,
            scripts_asm: self.scripts_asm@,
            scripts_hex: self.scripts_hex@,
            tx: self.tx@,
        }
    }
}

/// A run of report records as plain values.
pub open spec fn records_view(records: Seq<ReportRecord>) -> Seq<ReportRecordView> {
    Seq::new(records.len(), |i: int| records[i]@)
}

/// The report line of the transaction `tx`, matched at `height`.
pub open spec fn record_of(height: u64, tx: TransactionView) -> ReportRecordView {
    ReportRecordView {
        height,
        scripts_asm: scripts_asm_of(tx.input),
        scripts_hex: scripts_hex_of(tx.input),
        tx,
    }
}

/// The report lines of the matches `txs` of `height`, in their order.
pub open spec fn records_of(height: u64, txs: Seq<TransactionView>) -> Seq<ReportRecordView> {
    Seq::new(txs.len(), |i: int| record_of(height, txs[i]))
}

/// The report lines of the heights `from` up to, not including, `till`, in
/// rising order of height.
pub open spec fn report_over(index: IndexView, from: u64, till: u64) -> Seq<ReportRecordView>
    decreases till - from,
{
    if from >= till {
        Seq::empty()
    } else {
        report_over(index, from, (till - 1) as u64) + records_of(
            (till - 1) as u64,
            index.matches_at((till - 1) as u64),
        )
    }
}

/// The first height of the detail report when the checkpoint is
/// `checkpoint`: the window's length below it, or zero where the checkpoint
/// is lower than that.
pub open spec fn window_start(checkpoint: u64) -> u64 {
    if checkpoint < REPORT_WINDOW {
        0
    } else {
        (checkpoint - REPORT_WINDOW) as u64
    }
}

/// The total grows with the range.
pub proof fn lemma_total_grows(index: IndexView, from: u64, mid: u64, till: u64)
    requires
        mid <= till,
    ensures
        total_in(index, from, mid) <= total_in(index, from, till),
    decreases till - mid,
{
    if mid < till {
        lemma_total_grows(index, from, mid, (till - 1) as u64);
    }
}

/// The number of matched transactions at the heights from the index's start
/// height up to, not including, the tip less the safety margin. `None` where
/// that number does not fit the result's type.
pub fn get_total_cat_txs(store: &IndexStore, tip: u64) -> (total: Option<u64>)
    ensures
        match total {
            Some(n) => n == total_in(store@, store@.start_height, index_till(tip)),
            None => total_in(store@, store@.start_height, index_till(tip)) > u64::MAX,
        },
{
    let from: u64 = store.start_height();
    let till: u64 = scan_limit(tip);
    let mut total: u64 = 0;
    let mut height: u64 = from;
    while height < till
        invariant
            from == store@.start_height,
            till == index_till(tip),
            from <= height,
            height <= till || height == from,
            total == total_in(store@, from, height),
        decreases till - height,
    {
        let count: u64 = store.count_at(height) as u64;
        assert(total_in(store@, from, (height + 1) as u64) == total + count);
        match total.checked_add(count) {
            Some(sum) => {
                total = sum;
            },
            None => {
                proof {
                    lemma_total_grows(store@, from, (height + 1) as u64, till);
                }
                return None;
            },
        }
        height += 1;
    }
    Some(total)
}

/// For each height from `start` up to, not including, `finish`, in rising
/// order, the height and the number of matches at it. A height without an
/// entry is listed with the count zero.
pub fn get_cats_in_range(store: &IndexStore, start: u64, finish: u64) -> (series: Vec<(u64, u64)>)
    ensures
        series@.len() == (if start < finish {
            finish - start
        } else {
            0
        }),
        forall|i: int|
            0 <= i < series@.len() ==> {
                &&& (#[trigger] series@[i]).0 == start + i
                &&& series@[i].1 == store@.matches_at(series@[i].0).len()
            },
        forall|i: int|
            0 <= i < series@.len() && !store@.entries.dom().contains((#[trigger] series@[i]).0)
                ==> series@[i].1 == 0,
{
    let mut series: Vec<(u64, u64)> = Vec::new();
    let mut height: u64 = start;
    while height < finish
        invariant
            start <= height,
            height <= finish || height == start,
            series@.len() == height - start,
            forall|i: int|
                0 <= i < series@.len() ==> {
                    &&& (#[trigger] series@[i]).0 == start + i
                    &&& series@[i].1 == store@.matches_at(series@[i].0).len()
                },
        decreases finish - height,
    {
        let count: u64 = store.count_at(height) as u64;
        series.push((height, count));
        height += 1;
    }
    series
}

/// The script that the detail report prints for an input with the witness
/// `witness`, if it has one.
pub fn script_to_report(witness: &Vec<Vec<u8>>) -> (script: Option<&Vec<u8>>)
    ensures
        match script {
            Some(s) => reported_script(crate::witness::stack_view(witness@)) == Some(s@),
            None => reported_script(crate::witness::stack_view(witness@)) is None,
        },
{
    if witness.len() >= 2 {
        Some(&witness[witness.len() - 2])
    } else {
        None
    }
}

/// The report line of the transaction `tx`, matched at `height`: the scripts
/// of all its inputs, as assembly text and as hex, each run together without
/// a separator.
pub fn report_record(height: u64, tx: &Transaction) -> (record: ReportRecord)
    ensures
        record@ == record_of(height, tx@),
{
    let mut scripts_asm: Vec<u8> = Vec::new();
    let mut scripts_hex: Vec<u8> = Vec::new();
    let mut i: usize = 0;
    while i < tx.input.len()
        invariant
            i <= tx.input.len(),
            scripts_asm@ == scripts_asm_of(tx@.input.take(i as int)),
            scripts_hex@ == scripts_hex_of(tx@.input.take(i as int)),
        decreases tx.input.len() - i,
    {
        assert(tx@.input.take(i + 1).drop_last() =~= tx@.input.take(i as int));
        assert(tx@.input.take(i + 1).last() == tx.input@[i as int]@);
        match script_to_report(&tx.input[i].witness) {
            Some(script) => {
                let text = disassemble(script.as_slice());
                let hex = hex_text(script.as_slice());
                append_bytes(&mut scripts_asm, text.as_slice());
                append_bytes(&mut scripts_hex, hex.as_slice());
            },
            None => {
                assert(scripts_asm@ + Seq::<u8>::empty() =~= scripts_asm@);
                assert(scripts_hex@ + Seq::<u8>::empty() =~= scripts_hex@);
            },
        }
        i += 1;
    }
    assert(tx@.input.take(i as int) =~= tx@.input);
    ReportRecord { height, scripts_asm, scripts_hex, tx: tx.duplicate() }
}

/// The detail report: a line for each matched transaction of the last
/// heights below the checkpoint, as many heights as the window is long, in
/// rising order of height and, within a height, in the order in which the
/// matches came.
pub fn generate_cat_report(store: &IndexStore) -> (report: Vec<ReportRecord>)
    ensures
        records_view(report@) == report_over(
            store@,
            window_start(store@.next_height()),
            store@.next_height(),
        ),
{
    let checkpoint: u64 = store.get_checkpoint();
    let from: u64 = if checkpoint < REPORT_WINDOW {
        0
    } else {
        checkpoint - REPORT_WINDOW
    };
    let mut report: Vec<ReportRecord> = Vec::new();
    let mut height: u64 = from;
    assert(records_view(report@) =~= report_over(store@, from, height));
    while height < checkpoint
        invariant
            from <= height <= checkpoint,
            records_view(report@) == report_over(store@, from, height),
        decreases checkpoint - height,
    {
        let set = store.get_matches(height);
        let ghost before = records_view(report@);
        let count: usize = set.len();
        let mut i: usize = 0;
        while i < count
            invariant
                i <= count,
                count == set@.len(),
                set@ == store@.matches_at(height),
                records_view(report@) == before + records_of(height, set@).take(i as int),
            decreases count - i,
        {
            if let Some(tx) = set.get(i) {
                let record = report_record(height, tx);
                let ghost lines = records_view(report@);
                report.push(record);
                assert(records_view(report@) =~= lines.push(record_of(height, set@[i as int])));
                assert(records_of(height, set@).take(i + 1) =~= records_of(height, set@).take(
                    i as int,
                ).push(record_of(height, set@[i as int])));
            }
            i += 1;
        }
        assert(records_of(height, set@).take(i as int) =~= records_of(height, set@));
        height += 1;
    }
    report
}

} // verus!
