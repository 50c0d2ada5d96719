//! The set of matched transactions of one height.
//!
//! A transaction is known by its identity, `txid`. A match set holds at most
//! one transaction of each identity, in the order in which they came.

use vstd::prelude::*;
use crate::bytes::bytes_equal;
use crate::tx::{transactions_view, Transaction, TransactionView};

verus! {

/// Some transaction of `set` has the identity `txid`.
pub open spec fn has_txid(set: Seq<TransactionView>, txid: Seq<u8>) -> bool {
    exists|i: int| 0 <= i < set.len() && (#[trigger] set[i]).txid == txid
}

/// No two transactions of `set` share an identity.
pub open spec fn distinct_txids(set: Seq<TransactionView>) -> bool {
    forall|i: int, j: int|
        0 <= i < j < set.len() ==> (#[trigger] set[i]).txid != (#[trigger] set[j]).txid
}

/// `set` after `tx` was put in: unchanged where a transaction of that
/// identity is there already, else with `tx` at the end.
pub open spec fn inserted(set: Seq<TransactionView>, tx: TransactionView) -> Seq<TransactionView> {
    if has_txid(set, tx.txid) {
        set
    } else {
        set.push(tx)
    }
}

/// `set` after each transaction of `other` was put in, in order.
pub open spec fn merged(set: Seq<TransactionView>, other: Seq<TransactionView>) -> Seq<
    TransactionView,
>
    decreases other.len(),
{
    if other.len() == 0 {
        set
    } else {
        inserted(merged(set, other.drop_last()), other.last())
    }
}

/// The matched transactions of one height, without repeats.
#[derive(Debug)]
pub struct MatchSet {
    records: Vec<Transaction>,
}

impl View for MatchSet {
    type V = Seq<TransactionView>;

    closed spec fn view(&self) -> Seq<TransactionView> {
        transactions_view(self.records@)
    }
}

impl MatchSet {
    #[verifier::type_invariant]
    spec fn well_formed(&self) -> bool {
        distinct_txids(transactions_view(self.records@))
    }

    /// The empty set.
    pub fn new() -> (set: MatchSet)
        ensures
            set@ == Seq::<TransactionView>::empty(),
            distinct_txids(set@),
    {
        let set = MatchSet { records: Vec::new() };
        assert(set@ =~= Seq::<TransactionView>::empty());
        set
    }

    /// The number of transactions in the set. No two of them share an
    /// identity.
    pub fn len(&self) -> (n: usize)
        ensures
            n == self@.len(),
            distinct_txids(self@),
    {
        proof {
            use_type_invariant(self);
        }
        self.records.len()
    }

    /// Tells whether the set is empty.
    pub fn is_empty(&self) -> (empty: bool)
        ensures
            empty == (self@.len() == 0),
    {
        self.records.len() == 0
    }

    /// The transaction at place `i`, counted from zero in the order of
    /// arrival; `None` where the set has no such place.
    pub fn get(&self, i: usize) -> (tx: Option<&Transaction>)
        ensures
            match tx {
                Some(tx) => i < self@.len() && tx@ == self@[i as int],
                None => i >= self@.len(),
            },
    {
        if i < self.records.len() {
            Some(&self.records[i])
        } else {
            None
        }
    }

    /// Tells whether the set holds a transaction of the identity `txid`.
    pub fn contains(&self, txid: &[u8]) -> (found: bool)
        ensures
            found == has_txid(self@, txid@),
    {
        let mut i: usize = 0;
        while i < self.records.len()
            invariant
                i <= self.records.len(),
                forall|k: int| 0 <= k < i ==> (#[trigger] self@[k]).txid != txid@,
            decreases self.records.len() - i,
        {
            if bytes_equal(self.records[i].txid.as_slice(), txid) {
                assert(self@[i as int].txid == txid@);
                return true;
            }
            i += 1;
        }
        false
    }

    /// Puts `tx` into the set, unless a transaction of its identity is there
    /// already. Tells whether the set grew.
    pub fn insert(&mut self, tx: Transaction) -> (grew: bool)
        ensures
            final(self)@ == inserted(old(self)@, tx@),
            grew == !has_txid(old(self)@, tx@.txid),
            grew ==> final(self)@ == old(self)@.push(tx@),
            !grew ==> final(self)@ == old(self)@,
            has_txid(final(self)@, tx@.txid),
            distinct_txids(final(self)@),
    {
        proof {
            use_type_invariant(&*self);
            lemma_inserted_has(old(self)@, tx@);
        }
        if self.contains(tx.txid.as_slice()) {
            false
        } else {
            let ghost before = self@;
            let mut records: Vec<Transaction> = Vec::new();
            core::mem::swap(&mut self.records, &mut records);
            records.push(tx);
            assert(transactions_view(records@) =~= before.push(tx@));
            self.records = records;
            true
        }
    }

    /// Puts each transaction of `other` into the set, in order.
    pub fn union_with(&mut self, other: &MatchSet)
        ensures
            final(self)@ == merged(old(self)@, other@),
            distinct_txids(final(self)@),
    {
        let mut i: usize = 0;
        while i < other.records.len()
            invariant
                i <= other.records.len(),
                self@ == merged(old(self)@, other@.take(i as int)),
            decreases other.records.len() - i,
        {
            assert(other@.take(i + 1).drop_last() =~= other@.take(i as int));
            self.insert(other.records[i].duplicate());
            i += 1;
        }
        assert(other@.take(i as int) =~= other@);
        proof {
            use_type_invariant(&*self);
        }
    }

    /// A copy of the set.
    pub fn duplicate(&self) -> (copy: MatchSet)
        ensures
            copy@ == self@,
            distinct_txids(copy@),
    {
        let mut copy = MatchSet::new();
        copy.union_with(self);
        proof {
            use_type_invariant(self);
            lemma_merged_into_empty(self@);
        }
        copy
    }
}

/// What is in a set stays in it when a transaction is put in, and the
/// transaction's identity is in it afterwards.
pub proof fn lemma_inserted_has(set: Seq<TransactionView>, tx: TransactionView)
    ensures
        has_txid(inserted(set, tx), tx.txid),
        forall|txid: Seq<u8>| has_txid(set, txid) ==> #[trigger] has_txid(inserted(set, tx), txid),
        forall|txid: Seq<u8>| #[trigger]
            has_txid(inserted(set, tx), txid) ==> has_txid(set, txid) || txid == tx.txid,
{
    let after = inserted(set, tx);
    if !has_txid(set, tx.txid) {
        assert(after[set.len() as int].txid == tx.txid);
    }
    assert forall|txid: Seq<u8>| has_txid(set, txid) implies #[trigger] has_txid(after, txid) by {
        let i = choose|i: int| 0 <= i < set.len() && (#[trigger] set[i]).txid == txid;
        assert(after[i].txid == txid);
    }
    assert forall|txid: Seq<u8>| #[trigger] has_txid(after, txid) implies has_txid(set, txid)
        || txid == tx.txid by {
        let i = choose|i: int| 0 <= i < after.len() && (#[trigger] after[i]).txid == txid;
        if i < set.len() {
            assert(set[i].txid == txid);
        }
    }
}

/// Putting the same transaction in twice is the same as putting it in once:
/// the second time the set stays as it is, and so does its size.
pub proof fn lemma_inserted_twice(set: Seq<TransactionView>, tx: TransactionView)
    ensures
        inserted(inserted(set, tx), tx) == inserted(set, tx),
        inserted(inserted(set, tx), tx).len() == inserted(set, tx).len(),
{
    lemma_inserted_has(set, tx);
}

/// A set without repeats stays without repeats when a transaction is put in.
pub proof fn lemma_inserted_distinct(set: Seq<TransactionView>, tx: TransactionView)
    requires
        distinct_txids(set),
    ensures
        distinct_txids(inserted(set, tx)),
{
    let after = inserted(set, tx);
    if !has_txid(set, tx.txid) {
        assert forall|i: int, j: int| 0 <= i < j < after.len() implies (#[trigger] after[i]).txid
            != (#[trigger] after[j]).txid by {
            if j == set.len() {
                assert(set[i].txid != tx.txid);
            } else {
                assert(set[i].txid != set[j].txid);
            }
        }
    }
}

/// A merge leaves nothing out and adds nothing else: an identity is in the
/// merged set exactly if it was in the set or is in what was merged in.
pub proof fn lemma_merged_has(set: Seq<TransactionView>, other: Seq<TransactionView>)
    ensures
        forall|txid: Seq<u8>| #[trigger]
            has_txid(merged(set, other), txid) <==> has_txid(set, txid) || has_txid(other, txid),
    decreases other.len(),
{
    if other.len() == 0 {
        assert forall|txid: Seq<u8>| !has_txid(other, txid) by {}
    } else {
        let rest = other.drop_last();
        lemma_merged_has(set, rest);
        lemma_inserted_has(merged(set, rest), other.last());
        assert forall|txid: Seq<u8>| #[trigger]
            has_txid(merged(set, other), txid) <==> has_txid(set, txid) || has_txid(
                other,
                txid,
            ) by {
            if has_txid(other, txid) {
                let i = choose|i: int| 0 <= i < other.len() && (#[trigger] other[i]).txid == txid;
                if i < rest.len() {
                    assert(rest[i].txid == txid);
                    assert(has_txid(rest, txid));
                }
            }
            if has_txid(rest, txid) {
                let i = choose|i: int| 0 <= i < rest.len() && (#[trigger] rest[i]).txid == txid;
                assert(other[i].txid == txid);
            }
            if txid == other.last().txid {
                assert(other[other.len() - 1].txid == txid);
            }
            assert(has_txid(merged(set, rest), txid) <==> has_txid(set, txid) || has_txid(
                rest,
                txid,
            ));
        }
    }
}

/// A merge keeps a set without repeats so.
pub proof fn lemma_merged_distinct(set: Seq<TransactionView>, other: Seq<TransactionView>)
    requires
        distinct_txids(set),
    ensures
        distinct_txids(merged(set, other)),
    decreases other.len(),
{
    if other.len() > 0 {
        lemma_merged_distinct(set, other.drop_last());
        lemma_inserted_distinct(merged(set, other.drop_last()), other.last());
    }
}

/// Merging in transactions whose identities are all there changes nothing.
pub proof fn lemma_merged_known(set: Seq<TransactionView>, other: Seq<TransactionView>)
    requires
        forall|i: int| 0 <= i < other.len() ==> has_txid(set, (#[trigger] other[i]).txid),
    ensures
        merged(set, other) == set,
    decreases other.len(),
{
    if other.len() > 0 {
        let rest = other.drop_last();
        assert forall|i: int| 0 <= i < rest.len() implies has_txid(
            set,
            (#[trigger] rest[i]).txid,
        ) by {
            assert(rest[i] == other[i]);
        }
        lemma_merged_known(set, rest);
        assert(has_txid(set, other[other.len() - 1].txid));
    }
}

/// Merging the same transactions in twice is the same as merging them in
/// once.
pub proof fn lemma_merged_twice(set: Seq<TransactionView>, other: Seq<TransactionView>)
    ensures
        merged(merged(set, other), other) == merged(set, other),
{
    lemma_merged_has(set, other);
    assert forall|i: int| 0 <= i < other.len() implies has_txid(
        merged(set, other),
        (#[trigger] other[i]).txid,
    ) by {
        assert(has_txid(other, other[i].txid));
    }
    lemma_merged_known(merged(set, other), other);
}

/// Merging a set without repeats into the empty set gives that set back.
pub proof fn lemma_merged_into_empty(set: Seq<TransactionView>)
    requires
        distinct_txids(set),
    ensures
        merged(Seq::empty(), set) == set,
    decreases set.len(),
{
    if set.len() > 0 {
        lemma_merged_into_empty(set.drop_last());
        let init = set.drop_last();
        assert(!has_txid(init, set.last().txid)) by {
            if has_txid(init, set.last().txid) {
                let i = choose|i: int| 0 <= i < init.len() && (#[trigger] init[i]).txid == set.last().txid;
                assert(set[i].txid == set[set.len() - 1].txid);
            }
        }
        assert(init.push(set.last()) =~= set);
    }
}

} // verus!
