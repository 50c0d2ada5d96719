//! Transactions and blocks as the indexer sees them: plain bytes and numbers.

use vstd::prelude::*;
use vstd::slice::slice_to_vec;
use crate::witness::stack_view;

verus! {

/// The output that an input spends: the spent transaction's identity and the
/// number of the output in it.
#[derive(Debug, Clone, PartialEq, Eq)]
pub struct OutPoint {
    pub txid: Vec<u8>,
    pub vout: u32,
}

/// An `OutPoint` as plain values.
pub struct OutPointView {
    pub txid: Seq<u8>,
    pub vout: u32,
}

/// One input of a transaction: what it spends and its witness stack.
#[derive(Debug, Clone, PartialEq, Eq)]
pub struct TxInput {
    pub previous_output: OutPoint,
    pub witness: Vec<Vec<u8>>,
}

/// A `TxInput` as plain values.
pub struct TxInputView {
    pub previous_output: OutPointView,
    pub witness: Seq<Seq<u8>>,
}

/// A transaction: its identity (the hash by which it is known), its full
/// encoding, and its inputs.
#[derive(Debug, Clone, PartialEq, Eq)]
pub struct Transaction {
    pub txid: Vec<u8>,
    pub raw: Vec<u8>,
    pub input: Vec<TxInput>,
}

/// A `Transaction` as plain values.
pub struct TransactionView {
    pub txid: Seq<u8>,
    pub raw: Seq<u8>,
    pub input: Seq<TxInputView>,
}

/// A block: its transactions in order.
#[derive(Debug, Clone, PartialEq, Eq)]
pub struct Block {
    pub txdata: Vec<Transaction>,
}

impl View for OutPoint {
    type V = OutPointView;

    open spec fn view(&self) -> OutPointView {
        OutPointView { txid: self.txid@, vout: self.vout }
    }
}

impl View for TxInput {
    type V = TxInputView;

    open spec fn view(&self) -> TxInputView {
        TxInputView { previous_output: self.previous_output@, witness: stack_view(self.witness@) }
    }
}

impl View for Transaction {
    type V = TransactionView;

    open spec fn view(&self) -> TransactionView {
        TransactionView { txid: self.txid@, raw: self.raw@, input: inputs_view(self.input@) }
    }
}

impl View for Block {
    type V = Seq<TransactionView>;

    open spec fn view(&self) -> Seq<TransactionView> {
        transactions_view(self.txdata@)
    }
}

/// The inputs of a transaction as plain values.
pub open spec fn inputs_view(inputs: Seq<TxInput>) -> Seq<TxInputView> {
    Seq::new(inputs.len(), |i: int| inputs[i]@)
}

/// A run of transactions as plain values.
pub open spec fn transactions_view(txs: Seq<Transaction>) -> Seq<TransactionView> {
    Seq::new(txs.len(), |i: int| txs[i]@)
}

/// A block that is held in memory has no more transactions, and none of them
/// more inputs, than can be counted.
pub proof fn lemma_block_fits(block: Block)
    ensures
        block@.len() <= usize::MAX,
        forall|i: int| 0 <= i < block@.len() ==> (#[trigger] block@[i]).input.len() <= usize::MAX,
{
    assert(block.txdata.len() == block.txdata@.len());
    assert forall|i: int| 0 <= i < block@.len() implies (#[trigger] block@[i]).input.len()
        <= usize::MAX by {
        assert(block.txdata@[i].input.len() == block.txdata@[i].input@.len());
    }
}

/// A copy of a witness stack.
pub fn copy_stack(witness: &Vec<Vec<u8>>) -> (copy: Vec<Vec<u8>>)
    ensures
        stack_view(copy@) == stack_view(witness@),
{
    let mut copy: Vec<Vec<u8>> = Vec::new();
    let mut i: usize = 0;
    while i < witness.len()
        invariant
            i <= witness.len(),
            copy.len() == i,
            forall|k: int| 0 <= k < i ==> copy@[k]@ == witness@[k]@,
        decreases witness.len() - i,
    {
        copy.push(slice_to_vec(witness[i].as_slice()));
        i += 1;
    }
    assert(stack_view(copy@) =~= stack_view(witness@));
    copy
}

impl OutPoint {
    /// A copy of this outpoint.
    pub fn duplicate(&self) -> (copy: OutPoint)
        ensures
            copy@ == self@,
    {
        OutPoint { txid: slice_to_vec(self.txid.as_slice()), vout: self.vout }
    }
}

impl TxInput {
    /// A copy of this input.
    pub fn duplicate(&self) -> (copy: TxInput)
        ensures
            copy@ == self@,
    {
        TxInput {
            previous_output: self.previous_output.duplicate(),
            witness: copy_stack(&self.witness),
        }
    }
}

impl Transaction {
    /// A copy of this transaction.
    pub fn duplicate(&self) -> (copy: Transaction)
        ensures
            copy@ == self@,
    {
        let mut input: Vec<TxInput> = Vec::new();
        let mut i: usize = 0;
        while i < self.input.len()
            invariant
                i <= self.input.len(),
                input.len() == i,
                forall|k: int| 0 <= k < i ==> input@[k]@ == self.input@[k]@,
            decreases self.input.len() - i,
        {
            input.push(self.input[i].duplicate());
            i += 1;
        }
        assert(inputs_view(input@) =~= inputs_view(self.input@));
        Transaction {
            txid: slice_to_vec(self.txid.as_slice()),
            raw: slice_to_vec(self.raw.as_slice()),
            input,
        }
    }
}

} // verus!
