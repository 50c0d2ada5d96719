//! The index: the checkpoint and, for each height, the set of matched
//! transactions.
//!
//! The index is the one place that the scan writes and the reports read. A
//! height without an entry has no matches. Entries only grow: what is added
//! to a height is merged into what is there.

use std::collections::HashMap;
use vstd::prelude::*;
use crate::matches::{
    distinct_txids,
    has_txid,
    inserted,
    lemma_inserted_twice,
    lemma_merged_twice,
    merged,
    MatchSet,
};
use crate::tx::{Transaction, TransactionView};

verus! {

broadcast use vstd::std_specs::hash::group_hash_axioms;

/// The index as plain values.
pub struct IndexView {
    /// Where a scan starts when no checkpoint was ever set.
    pub start_height: u64,
    /// The checkpoint, once one was set: the next height to scan.
    pub checkpoint: Option<u64>,
    /// The matched transactions of each height that has an entry.
    pub entries: Map<u64, Seq<TransactionView>>,
}

impl IndexView {
    /// The next height to scan: the checkpoint, or the start height where
    /// none was set.
    pub open spec fn next_height(self) -> u64 {
        match self.checkpoint {
            Some(height) => height,
            None => self.start_height,
        }
    }

    /// The matches of `height`: empty where it has no entry.
    pub open spec fn matches_at(self, height: u64) -> Seq<TransactionView> {
        if self.entries.dom().contains(height) {
            self.entries[height]
        } else {
            Seq::empty()
        }
    }

    /// The index with the checkpoint set to `height`.
    pub open spec fn with_checkpoint(self, height: u64) -> IndexView {
        IndexView { checkpoint: Some(height), ..self }
    }

    /// The index after `tx` was put into the entry of `height`.
    pub open spec fn with_tx(self, height: u64, tx: TransactionView) -> IndexView {
        IndexView {
            entries: self.entries.insert(height, inserted(self.matches_at(height), tx)),
            ..self
        }
    }

    /// The index after `set` was merged into the entry of `height`. An empty
    /// `set` leaves the index as it is, and makes no entry.
    pub open spec fn with_matches(self, height: u64, set: Seq<TransactionView>) -> IndexView {
        if set.len() == 0 {
            self
        } else {
            IndexView {
                entries: self.entries.insert(height, merged(self.matches_at(height), set)),
                ..self
            }
        }
    }
}

/// A height without an entry has no matches.
pub proof fn lemma_no_entry_no_matches(index: IndexView, height: u64)
    requires
        !index.entries.dom().contains(height),
    ensures
        index.matches_at(height).len() == 0,
{
}

/// Putting the same transaction into the entry of a height twice is the same
/// as putting it in once: the second time the index stays as it is, and the
/// entry keeps its size.
pub proof fn lemma_with_tx_twice(index: IndexView, height: u64, tx: TransactionView)
    ensures
        index.with_tx(height, tx).with_tx(height, tx) == index.with_tx(height, tx),
        index.with_tx(height, tx).with_tx(height, tx).matches_at(height).len() == index.with_tx(
            height,
            tx,
        ).matches_at(height).len(),
{
    lemma_inserted_twice(index.matches_at(height), tx);
    let once = index.with_tx(height, tx);
    assert(once.matches_at(height) == inserted(index.matches_at(height), tx));
    assert(once.with_tx(height, tx).entries =~= once.entries);
}

/// Merging the same matches into the entry of a height twice is the same as
/// merging them in once.
pub proof fn lemma_with_matches_twice(index: IndexView, height: u64, set: Seq<TransactionView>)
    ensures
        index.with_matches(height, set).with_matches(height, set) == index.with_matches(
            height,
            set,
        ),
{
    if set.len() > 0 {
        lemma_merged_twice(index.matches_at(height), set);
        let once = index.with_matches(height, set);
        assert(once.matches_at(height) == merged(index.matches_at(height), set));
        assert(once.with_matches(height, set).entries =~= once.entries);
    }
}

/// The index after the heights `from` up to, not including, `till` were
/// scanned in rising order, where `found` gives the matches of each height:
/// for each height its matches are merged in and the checkpoint is moved
/// behind it.
pub open spec fn scanned(
    index: IndexView,
    found: spec_fn(u64) -> Seq<TransactionView>,
    from: u64,
    till: u64,
) -> IndexView
    decreases till - from,
{
    if from >= till {
        index
    } else {
        scanned(index, found, from, (till - 1) as u64).with_matches(
            (till - 1) as u64,
            found((till - 1) as u64),
        ).with_checkpoint(till)
    }
}

/// What a scan of a range leaves: the checkpoint stands behind the range; at
/// each height of the range the matches found are merged into what was
/// there; every other height is as it was.
pub proof fn lemma_scanned(
    index: IndexView,
    found: spec_fn(u64) -> Seq<TransactionView>,
    from: u64,
    till: u64,
)
    ensures
        scanned(index, found, from, till).start_height == index.start_height,
        from < till ==> scanned(index, found, from, till).checkpoint == Some(till),
        from >= till ==> scanned(index, found, from, till) == index,
        forall|h: u64|
            #![trigger scanned(index, found, from, till).matches_at(h)]
            scanned(index, found, from, till).matches_at(h) == (if from <= h < till {
                merged(index.matches_at(h), found(h))
            } else {
                index.matches_at(h)
            }),
        forall|h: u64|
            #![trigger scanned(index, found, from, till).entries.dom().contains(h)]
            scanned(index, found, from, till).entries.dom().contains(h) <==> (
            index.entries.dom().contains(h) || (from <= h < till && found(h).len() > 0)),
    decreases till - from,
{
    if from < till {
        let last = (till - 1) as u64;
        lemma_scanned(index, found, from, last);
        let before = scanned(index, found, from, last);
        let after = scanned(index, found, from, till);
        assert(after == before.with_matches(last, found(last)).with_checkpoint(till));
        assert forall|h: u64|
            #![trigger after.matches_at(h)]
            after.matches_at(h) == (if from <= h < till {
                merged(index.matches_at(h), found(h))
            } else {
                index.matches_at(h)
            }) by {
            assert(before.matches_at(h) == (if from <= h < last {
                merged(index.matches_at(h), found(h))
            } else {
                index.matches_at(h)
            }));
        }
        assert forall|h: u64|
            #![trigger after.entries.dom().contains(h)]
            after.entries.dom().contains(h) <==> (index.entries.dom().contains(h) || (from <= h
                < till && found(h).len() > 0)) by {
            assert(before.entries.dom().contains(h) <==> (index.entries.dom().contains(h) || (from
                <= h < last && found(h).len() > 0)));
        }
    }
}

/// Scanning a range again, with the same matches found, leaves the index as
/// the first scan left it: nothing is doubled and nothing is lost.
pub proof fn lemma_scanned_twice(
    index: IndexView,
    found: spec_fn(u64) -> Seq<TransactionView>,
    from: u64,
    till: u64,
)
    ensures
        scanned(scanned(index, found, from, till), found, from, till) == scanned(
            index,
            found,
            from,
            till,
        ),
{
    let once = scanned(index, found, from, till);
    let twice = scanned(once, found, from, till);
    lemma_scanned(index, found, from, till);
    lemma_scanned(once, found, from, till);
    if from < till {
        assert forall|h: u64| twice.matches_at(h) == once.matches_at(h) by {
            if from <= h < till {
                lemma_merged_twice(index.matches_at(h), found(h));
            }
        }
        assert forall|h: u64|
            twice.entries.dom().contains(h) <==> once.entries.dom().contains(h) by {
            assert(twice.entries.dom().contains(h) <==> (once.entries.dom().contains(h) || (from
                <= h < till && found(h).len() > 0)));
            assert(once.entries.dom().contains(h) <==> (index.entries.dom().contains(h) || (from
                <= h < till && found(h).len() > 0)));
        }
        assert forall|h: u64| once.entries.dom().contains(h) implies twice.entries[h]
            == once.entries[h] by {
            assert(twice.matches_at(h) == once.matches_at(h));
        }
        assert(twice.entries =~= once.entries);
    }
}

/// A scan that starts where the last one ended, with the same end, finds
/// nothing to do and leaves the index as it is.
pub proof fn lemma_scanned_resumed(
    index: IndexView,
    found: spec_fn(u64) -> Seq<TransactionView>,
    from: u64,
    till: u64,
)
    requires
        from < till,
    ensures
        scanned(index, found, from, till).next_height() == till,
        scanned(
            scanned(index, found, from, till),
            found,
            scanned(index, found, from, till).next_height(),
            till,
        ) == scanned(index, found, from, till),
{
    lemma_scanned(index, found, from, till);
}

/// The index.
pub struct IndexStore {
    start_height: u64,
    checkpoint: Option<u64>,
    entries: HashMap<u64, MatchSet>,
}

impl View for IndexStore {
    type V = IndexView;

    closed spec fn view(&self) -> IndexView {
        IndexView {
            start_height: self.start_height,
            checkpoint: self.checkpoint,
            entries: Map::new(
                |height: u64| self.entries@.dom().contains(height),
                |height: u64| self.entries@[height]@,
            ),
        }
    }
}

impl IndexStore {
    /// An index without checkpoint and without entries, for scans that start
    /// at `start_height`.
    pub fn new(start_height: u64) -> (store: IndexStore)
        ensures
            store@ == (IndexView { start_height, checkpoint: None, entries: Map::empty() }),
    {
        let store = IndexStore { start_height, checkpoint: None, entries: HashMap::new() };
        assert(store@.entries =~= Map::empty());
        store
    }

    /// The height at which scans start when no checkpoint was set.
    pub fn start_height(&self) -> (height: u64)
        ensures
            height == self@.start_height,
    {
        self.start_height
    }

    /// The checkpoint as it was set, if ever.
    pub fn stored_checkpoint(&self) -> (checkpoint: Option<u64>)
        ensures
            checkpoint == self@.checkpoint,
    {
        self.checkpoint
    }

    /// The next height to scan: the checkpoint, or the start height where no
    /// checkpoint was set.
    pub fn get_checkpoint(&self) -> (height: u64)
        ensures
            height == self@.next_height(),
    {
        match self.checkpoint {
            Some(height) => height,
            None => self.start_height,
        }
    }

    /// Sets the checkpoint to `height`, whatever it was.
    pub fn set_checkpoint(&mut self, height: u64)
        ensures
            final(self)@ == old(self)@.with_checkpoint(height),
    {
        self.checkpoint = Some(height);
    }

    /// Tells whether `height` has an entry.
    pub fn has_entry(&self, height: u64) -> (present: bool)
        ensures
            present == self@.entries.dom().contains(height),
    {
        self.entries.contains_key(&height)
    }

    /// The number of matches at `height`: zero where it has no entry.
    pub fn count_at(&self, height: u64) -> (count: usize)
        ensures
            count == self@.matches_at(height).len(),
    {
        match self.entries.get(&height) {
            Some(set) => set.len(),
            None => 0,
        }
    }

    /// The matches of `height`: the empty set where it has no entry. No two
    /// of them share an identity.
    pub fn get_matches(&self, height: u64) -> (set: MatchSet)
        ensures
            set@ == self@.matches_at(height),
            distinct_txids(set@),
    {
        match self.entries.get(&height) {
            Some(set) => set.duplicate(),
            None => MatchSet::new(),
        }
    }

    /// Puts `tx` into the entry of `height`, unless a transaction of its
    /// identity is there already. Tells whether the entry grew.
    pub fn insert_tx(&mut self, height: u64, tx: Transaction) -> (grew: bool)
        ensures
            final(self)@ == old(self)@.with_tx(height, tx@),
            grew == !has_txid(old(self)@.matches_at(height), tx@.txid),
            grew ==> final(self)@.matches_at(height) == old(self)@.matches_at(height).push(tx@),
            !grew ==> final(self)@.matches_at(height) == old(self)@.matches_at(height),
            has_txid(final(self)@.matches_at(height), tx@.txid),
            distinct_txids(final(self)@.matches_at(height)),
    {
        let mut entry = match self.entries.remove(&height) {
            Some(entry) => entry,
            None => MatchSet::new(),
        };
        let grew = entry.insert(tx);
        self.entries.insert(height, entry);
        assert(self@.entries =~= old(self)@.with_tx(height, tx@).entries);
        grew
    }

    /// Merges `set` into the entry of `height`. What was there stays; of the
    /// transactions of `set`, those whose identity is new are added, in
    /// order. An empty `set` changes nothing.
    pub fn add_matches(&mut self, height: u64, set: &MatchSet)
        ensures
            final(self)@ == old(self)@.with_matches(height, set@),
    {
        if set.is_empty() {
            return ;
        }
        let mut entry = match self.entries.remove(&height) {
            Some(entry) => entry,
            None => MatchSet::new(),
        };
        entry.union_with(set);
        self.entries.insert(height, entry);
        assert(self@.entries =~= old(self)@.with_matches(height, set@).entries);
    }
}

} // verus!
