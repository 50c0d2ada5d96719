//! The indexer: the scan as a state machine over the index.
//!
//! The states are `Idle`, `Running`, `Completed` and `Failed`. A run begins
//! with the chain's tip and ends when every height below the tip less the
//! safety margin is indexed, or when something outside failed. While it runs,
//! the indexer asks for one thing at a time: a block, the spent outputs of the
//! block's candidates, that the matches of the height be made durable, that
//! the checkpoint be made durable. The checkpoint moves only after the
//! matches of the height were reported durable, so a run that breaks off is
//! taken up at the same height by the next one.

use vstd::prelude::*;
use crate::error::IndexError;
use crate::matches::MatchSet;
use crate::scan::{
    candidates_of,
    gather_matches,
    gathered,
    index_till,
    is_candidate,
    lemma_candidates_listed,
    outpoints_of,
    parse_block,
    prevouts_view,
    scan_limit,
    Candidate,
    Strategy,
    SAFETY_MARGIN,
};
use crate::store::{lemma_scanned, lemma_scanned_twice, scanned, IndexStore, IndexView};
use crate::tx::{lemma_block_fits, Block, OutPoint, OutPointView, TransactionView};

verus! {

/// The four states of a scan.
#[derive(Debug, Clone, Copy, PartialEq, Eq, Structural)]
pub enum ScanState {
    Idle,
    Running,
    Completed,
    Failed,
}

/// What happened outside the indexer.
#[derive(Debug, PartialEq, Eq)]
pub enum Event {
    /// A run is asked for; the chain's tip is `tip`.
    Start { tip: u64 },
    /// The block that was asked for.
    Block(Block),
    /// The output scripts that were asked for, one for each outpoint and in
    /// their order; `None` for an output that does not exist.
    Prevouts(Vec<Option<Vec<u8>>>),
    /// What was to be made durable is durable.
    Persisted,
    /// What was asked for could not be done.
    Failed(IndexError),
}

/// An `Event` as plain values.
pub enum EventView {
    Start { tip: u64 },
    Block(Seq<TransactionView>),
    Prevouts(Seq<Option<Seq<u8>>>),
    Persisted,
    Failed(IndexError),
}

impl View for Event {
    type V = EventView;

    open spec fn view(&self) -> EventView {
        match *self {
            Event::Start { tip } => EventView::Start { tip },
            Event::Block(block) => EventView::Block(block@),
            Event::Prevouts(found) => EventView::Prevouts(prevouts_view(found@)),
            Event::Persisted => EventView::Persisted,
            Event::Failed(error) => EventView::Failed(error),
        }
    }
}

/// What the indexer asks to be done next.
#[derive(Debug, PartialEq, Eq)]
pub enum Action {
    /// Nothing: no run was asked for.
    Wait,
    /// Fetch the block of `height` and report it.
    FetchBlock { height: u64 },
    /// Look up the output script of each of `outpoints` and report them.
    ResolvePrevouts { outpoints: Vec<OutPoint> },
    /// Make the index's entry of `height` durable and report it.
    PersistMatches { height: u64 },
    /// Make the checkpoint `height` durable and report it.
    PersistCheckpoint { height: u64 },
    /// The run is complete.
    Finish,
    /// The run was given up for `error`.
    Abort { error: IndexError },
}

/// An `Action` as plain values.
pub enum ActionView {
    Wait,
    FetchBlock { height: u64 },
    ResolvePrevouts { outpoints: Seq<OutPointView> },
    PersistMatches { height: u64 },
    PersistCheckpoint { height: u64 },
    Finish,
    Abort { error: IndexError },
}

/// A run of outpoints as plain values.
pub open spec fn outpoints_view(outpoints: Seq<OutPoint>) -> Seq<OutPointView> {
    Seq::new(outpoints.len(), |k: int| outpoints[k]@)
}

impl View for Action {
    type V = ActionView;

    open spec fn view(&self) -> ActionView {
        match *self {
            Action::Wait => ActionView::Wait,
            Action::FetchBlock { height } => ActionView::FetchBlock { height },
            Action::ResolvePrevouts { outpoints } => ActionView::ResolvePrevouts {
                outpoints: outpoints_view(outpoints@),
            },
            Action::PersistMatches { height } => ActionView::PersistMatches { height },
            Action::PersistCheckpoint { height } => ActionView::PersistCheckpoint { height },
            Action::Finish => ActionView::Finish,
            Action::Abort { error } => ActionView::Abort { error },
        }
    }
}

/// Where a scan stands: at rest, or what it waits for at which height.
pub enum Step {
    /// No run was asked for yet.
    Idle,
    /// The block of `height` was asked for.
    Block { height: u64 },
    /// The spent outputs of the candidates of the block of `height` were
    /// asked for.
    Prevouts { height: u64, block: Seq<TransactionView>, candidates: Seq<Candidate> },
    /// The matches of `height` are in the index and are being made durable.
    MatchesStored { height: u64 },
    /// The checkpoint behind `height` is set and is being made durable.
    CheckpointStored { height: u64 },
    /// The run is complete.
    Completed,
    /// The run was given up.
    Failed { error: IndexError },
}

/// The indexer as plain values.
pub struct IndexerView {
    /// How inputs are tested.
    pub strategy: Strategy,
    /// The chain's tip of the latest run; zero before the first.
    pub tip: u64,
    /// The index.
    pub index: IndexView,
    /// Where the scan stands.
    pub step: Step,
}

impl Step {
    /// The height in work, while a run is under way.
    pub open spec fn height(self) -> Option<u64> {
        match self {
            Step::Block { height } => Some(height),
            Step::Prevouts { height, .. } => Some(height),
            Step::MatchesStored { height } => Some(height),
            Step::CheckpointStored { height } => Some(height),
            _ => None,
        }
    }

    /// The state that this step belongs to.
    pub open spec fn state(self) -> ScanState {
        match self {
            Step::Idle => ScanState::Idle,
            Step::Completed => ScanState::Completed,
            Step::Failed { .. } => ScanState::Failed,
            _ => ScanState::Running,
        }
    }

    /// What a scan at this step asks for, and asks again when it is told
    /// something else.
    pub open spec fn request(self) -> ActionView {
        match self {
            Step::Idle => ActionView::Wait,
            Step::Block { height } => ActionView::FetchBlock { height },
            Step::Prevouts { block, candidates, .. } => ActionView::ResolvePrevouts {
                outpoints: outpoints_of(block, candidates),
            },
            Step::MatchesStored { height } => ActionView::PersistMatches { height },
            Step::CheckpointStored { height } => ActionView::PersistCheckpoint {
                height: (height + 1) as u64,
            },
            Step::Completed => ActionView::Finish,
            Step::Failed { error } => ActionView::Abort { error },
        }
    }
}

impl IndexerView {
    /// What holds of every indexer: a height in work lies below the tip less
    /// the safety margin, the checkpoint stands at that height until it is
    /// moved behind it, and spent outputs are only asked for under the
    /// strictest strategy, for the candidates of the block.
    pub open spec fn wf(self) -> bool {
        match self.step {
            Step::Block { height } => {
                &&& height < index_till(self.tip)
                &&& self.index.next_height() == height
            },
            Step::Prevouts { height, block, candidates } => {
                &&& height < index_till(self.tip)
                &&& self.index.next_height() == height
                &&& self.strategy == Strategy::PrevoutConfirmed
                &&& candidates == candidates_of(self.strategy, block)
                &&& candidates.len() > 0
            },
            Step::MatchesStored { height } => {
                &&& height < index_till(self.tip)
                &&& self.index.next_height() == height
            },
            Step::CheckpointStored { height } => {
                &&& height < index_till(self.tip)
                &&& self.index.next_height() == height + 1
            },
            _ => true,
        }
    }

    /// A run begins with the chain's tip at `tip`: at the checkpoint, if that
    /// lies below the tip less the safety margin; else there is nothing to
    /// scan and the run is complete at once.
    pub open spec fn begin(self, tip: u64) -> (IndexerView, ActionView) {
        let from = self.index.next_height();
        if from < index_till(tip) {
            (
                IndexerView { tip, step: Step::Block { height: from }, ..self },
                ActionView::FetchBlock { height: from },
            )
        } else {
            (IndexerView { tip, step: Step::Completed, ..self }, ActionView::Finish)
        }
    }

    /// The matches of `height` are known to be `set`. They are merged into
    /// the index and made durable; where there are none, the checkpoint is
    /// moved at once.
    pub open spec fn settle(self, height: u64, set: Seq<TransactionView>) -> (
        IndexerView,
        ActionView,
    ) {
        if set.len() == 0 {
            self.advance(height)
        } else {
            (
                IndexerView {
                    index: self.index.with_matches(height, set),
                    step: Step::MatchesStored { height },
                    ..self
                },
                ActionView::PersistMatches { height },
            )
        }
    }

    /// The checkpoint is moved behind `height` and made durable.
    pub open spec fn advance(self, height: u64) -> (IndexerView, ActionView) {
        (
            IndexerView {
                index: self.index.with_checkpoint((height + 1) as u64),
                step: Step::CheckpointStored { height },
                ..self
            },
            ActionView::PersistCheckpoint { height: (height + 1) as u64 },
        )
    }

    /// The checkpoint behind `height` is durable: the next height is taken
    /// up, or the run is complete.
    pub open spec fn proceed(self, height: u64) -> (IndexerView, ActionView) {
        if height + 1 < index_till(self.tip) {
            (
                IndexerView { step: Step::Block { height: (height + 1) as u64 }, ..self },
                ActionView::FetchBlock { height: (height + 1) as u64 },
            )
        } else {
            (IndexerView { step: Step::Completed, ..self }, ActionView::Finish)
        }
    }

    /// The block of `height` has come. Its candidates are listed. Under the
    /// strictest strategy their spent outputs are asked for, if there are
    /// any; else the candidates' transactions are the matches.
    pub open spec fn take_block(self, height: u64, block: Seq<TransactionView>) -> (
        IndexerView,
        ActionView,
    ) {
        let candidates = candidates_of(self.strategy, block);
        if self.strategy == Strategy::PrevoutConfirmed && candidates.len() > 0 {
            (
                IndexerView { step: Step::Prevouts { height, block, candidates }, ..self },
                ActionView::ResolvePrevouts { outpoints: outpoints_of(block, candidates) },
            )
        } else {
            self.settle(height, gathered(block, candidates, None))
        }
    }

    /// The indexer after the height in work is done: its matches are known
    /// to be `set`, they were reported durable where there are any, and so
    /// was the checkpoint behind the height.
    pub open spec fn height_done(self, height: u64, set: Seq<TransactionView>) -> IndexerView {
        let settled = self.settle(height, set).0;
        let moved = if set.len() == 0 {
            settled
        } else {
            settled.next(EventView::Persisted).0
        };
        moved.next(EventView::Persisted).0
    }

    /// The indexer after the next `count` heights are done, where `found`
    /// gives the matches of each height. Once the run is complete nothing
    /// more is done.
    pub open spec fn heights_done(
        self,
        found: spec_fn(u64) -> Seq<TransactionView>,
        count: nat,
    ) -> IndexerView
        decreases count,
    {
        if count == 0 {
            self
        } else {
            let before = self.heights_done(found, (count - 1) as nat);
            match before.step {
                Step::Block { height } => before.height_done(height, found(height)),
                _ => before,
            }
        }
    }

    /// The run is given up for `error`.
    pub open spec fn fail(self, error: IndexError) -> (IndexerView, ActionView) {
        (IndexerView { step: Step::Failed { error }, ..self }, ActionView::Abort { error })
    }

    /// Nothing changes, and what was asked for is asked for again.
    pub open spec fn repeat(self) -> (IndexerView, ActionView) {
        (self, self.step.request())
    }

    /// The indexer after `event`, and what it asks for next.
    ///
    /// At rest (idle, completed or failed) only a start is heard. While a run
    /// is under way, a failure ends it, the event that was waited for moves it
    /// on, and any other event has the request repeated.
    pub open spec fn next(self, event: EventView) -> (IndexerView, ActionView) {
        match self.step {
            Step::Idle | Step::Completed | Step::Failed { .. } => match event {
                EventView::Start { tip } => self.begin(tip),
                _ => self.repeat(),
            },
            Step::Block { height } => match event {
                EventView::Block(block) => self.take_block(height, block),
                EventView::Failed(error) => self.fail(error),
                _ => self.repeat(),
            },
            Step::Prevouts { height, block, candidates } => match event {
                EventView::Prevouts(found) => if found.len() == candidates.len() {
                    self.settle(height, gathered(block, candidates, Some(found)))
                } else {
                    self.repeat()
                },
                EventView::Failed(error) => self.fail(error),
                _ => self.repeat(),
            },
            Step::MatchesStored { height } => match event {
                EventView::Persisted => self.advance(height),
                EventView::Failed(error) => self.fail(error),
                _ => self.repeat(),
            },
            Step::CheckpointStored { height } => match event {
                EventView::Persisted => self.proceed(height),
                EventView::Failed(error) => self.fail(error),
                _ => self.repeat(),
            },
        }
    }
}

/// A step keeps a well-formed indexer well formed.
pub proof fn lemma_next_wf(pre: IndexerView, event: EventView)
    requires
        pre.wf(),
    ensures
        pre.next(event).0.wf(),
{
}

/// The safety margin holds at every step. Whatever the event: a block is
/// only asked for, and matches are only stored, at a height that lies more
/// than the margin below the tip; an entry of the index changes only at such
/// a height; and the checkpoint either stays or moves on by one, to a height
/// that lies the margin or more below the tip. The tip is the one that the
/// run was started with, so a later run with a higher tip is held to its own
/// tip in the same way.
pub proof fn lemma_safety_margin(pre: IndexerView, event: EventView)
    requires
        pre.wf(),
    ensures
        ({
            let (post, action) = pre.next(event);
            &&& action matches ActionView::FetchBlock { height } ==> height + SAFETY_MARGIN
                < post.tip
            &&& action matches ActionView::PersistMatches { height } ==> height + SAFETY_MARGIN
                < post.tip
            &&& action matches ActionView::PersistCheckpoint { height } ==> height + SAFETY_MARGIN
                <= post.tip
            &&& post.step.height() matches Some(height) ==> height + SAFETY_MARGIN < post.tip
            &&& forall|h: u64|
                post.index.matches_at(h) != pre.index.matches_at(h) ==> h + SAFETY_MARGIN
                    < post.tip
            &&& post.index.next_height() == pre.index.next_height() || (post.index.next_height()
                == pre.index.next_height() + 1 && post.index.next_height() + SAFETY_MARGIN
                <= post.tip)
        }),
{
    let (post, action) = pre.next(event);
    assert forall|h: u64| post.index.matches_at(h) != pre.index.matches_at(h) implies h
        + SAFETY_MARGIN < post.tip by {
        if post.index != pre.index {
            let height = pre.step.height().unwrap();
            if h != height {
                assert(post.index.matches_at(h) == pre.index.matches_at(h));
            }
        }
    }
}

/// A run that is started where the last one ended, with the same tip, is
/// complete at once and leaves the index as it is.
pub proof fn lemma_resume_completes(pre: IndexerView, tip: u64)
    requires
        pre.step.state() != ScanState::Running,
        pre.index.next_height() >= index_till(tip),
    ensures
        pre.next(EventView::Start { tip }) == (
            IndexerView { tip, step: Step::Completed, ..pre },
            ActionView::Finish,
        ),
{
}

/// A run ends behind the last height below the tip less the safety margin:
/// when the checkpoint behind a height is durable and the run is complete,
/// the checkpoint stands at the tip less the margin, so that the same tip
/// gives the next run nothing to do.
pub proof fn lemma_completed_at_limit(pre: IndexerView)
    requires
        pre.wf(),
        pre.step is CheckpointStored,
        pre.next(EventView::Persisted).0.step is Completed,
    ensures
        pre.next(EventView::Persisted).0.index == pre.index,
        pre.index.next_height() == index_till(pre.tip),
{
}

/// What a run leaves. A run that stands at a height and gets through the
/// next heights without a failure leaves the index as a scan of those heights
/// leaves it: the matches of each height merged into its entry, the
/// checkpoint behind the last of them. It then stands at the next height, or
/// is complete when that height is the tip less the safety margin.
pub proof fn lemma_run_scans(
    pre: IndexerView,
    found: spec_fn(u64) -> Seq<TransactionView>,
    count: nat,
)
    requires
        pre.wf(),
        pre.step is Block,
        pre.step.height().unwrap() + count <= index_till(pre.tip),
    ensures
        ({
            let from = pre.step.height().unwrap();
            let post = pre.heights_done(found, count);
            &&& post.wf()
            &&& post.tip == pre.tip
            &&& post.strategy == pre.strategy
            &&& post.index == scanned(pre.index, found, from, (from + count) as u64)
            &&& post.step == if from + count < index_till(pre.tip) {
                Step::Block { height: (from + count) as u64 }
            } else {
                Step::Completed
            }
        }),
    decreases count,
{
    let from = pre.step.height().unwrap();
    if count > 0 {
        lemma_run_scans(pre, found, (count - 1) as nat);
        let before = pre.heights_done(found, (count - 1) as nat);
        let height = (from + count - 1) as u64;
        assert(before.step == Step::Block { height });
        lemma_height_indexed(before, height, found(height));
    }
}

/// A run that went through a range of heights and is started again over the
/// same range, with the same matches found, leaves the index as the first run
/// left it.
pub proof fn lemma_run_again(
    pre: IndexerView,
    again: IndexerView,
    found: spec_fn(u64) -> Seq<TransactionView>,
    count: nat,
)
    requires
        pre.wf(),
        again.wf(),
        pre.step is Block,
        again.step == pre.step,
        again.tip == pre.tip,
        pre.step.height().unwrap() + count <= index_till(pre.tip),
        again.index == pre.heights_done(found, count).index.with_checkpoint(
            pre.step.height().unwrap(),
        ),
    ensures
        count > 0 ==> again.heights_done(found, count).index == pre.heights_done(
            found,
            count,
        ).index,
{
    let from = pre.step.height().unwrap();
    let till = (from + count) as u64;
    lemma_run_scans(pre, found, count);
    lemma_run_scans(again, found, count);
    if count > 0 {
        let once = scanned(pre.index, found, from, till);
        lemma_scanned(pre.index, found, from, till);
        lemma_scanned(once, found, from, till);
        lemma_scanned(once.with_checkpoint(from), found, from, till);
        lemma_scanned_twice(pre.index, found, from, till);
        let twice = scanned(once, found, from, till);
        let other = scanned(once.with_checkpoint(from), found, from, till);
        assert forall|h: u64| other.entries.dom().contains(h) <==> twice.entries.dom().contains(h) by {
            assert(other.entries.dom().contains(h) <==> (once.with_checkpoint(from).entries.dom().contains(h) || (from
                <= h < till && found(h).len() > 0)));
            assert(twice.entries.dom().contains(h) <==> (once.entries.dom().contains(h) || (from
                <= h < till && found(h).len() > 0)));
        }
        assert forall|h: u64| other.entries.dom().contains(h) implies other.entries[h]
            == twice.entries[h] by {
            assert(other.matches_at(h) == twice.matches_at(h));
        }
        assert(other.entries =~= twice.entries);
    }
}

/// What a height costs the index: once its matches are settled and, where
/// there are any, reported durable, the index holds them merged into the
/// entry of the height, and the checkpoint stands behind it.
pub proof fn lemma_height_indexed(pre: IndexerView, height: u64, set: Seq<TransactionView>)
    ensures
        ({
            let settled = pre.settle(height, set).0;
            let moved = if set.len() == 0 {
                settled
            } else {
                settled.next(EventView::Persisted).0
            };
            &&& moved.step == Step::CheckpointStored { height }
            &&& moved.index == pre.index.with_matches(height, set).with_checkpoint(
                (height + 1) as u64,
            )
        }),
{
}

enum Phase {
    Idle,
    AwaitBlock { height: u64 },
    AwaitPrevouts { height: u64, block: Block, candidates: Vec<Candidate> },
    AwaitMatchesStored { height: u64 },
    AwaitCheckpointStored { height: u64 },
    Completed,
    Failed(IndexError),
}

impl Phase {
    spec fn step(self) -> Step {
        match self {
            Phase::Idle => Step::Idle,
            Phase::AwaitBlock { height } => Step::Block { height },
            Phase::AwaitPrevouts { height, block, candidates } => Step::Prevouts {
                height,
                block: block@,
                candidates: candidates@,
            },
            Phase::AwaitMatchesStored { height } => Step::MatchesStored { height },
            Phase::AwaitCheckpointStored { height } => Step::CheckpointStored { height },
            Phase::Completed => Step::Completed,
            Phase::Failed(error) => Step::Failed { error },
        }
    }
}

/// The indexer: an index, the strategy by which inputs are tested, and where
/// the scan stands.
pub struct Indexer {
    strategy: Strategy,
    tip: u64,
    store: IndexStore,
    phase: Phase,
}

impl View for Indexer {
    type V = IndexerView;

    closed spec fn view(&self) -> IndexerView {
        IndexerView {
            strategy: self.strategy,
            tip: self.tip,
            index: self.store@,
            step: self.phase.step(),
        }
    }
}

/// The outputs that the inputs at `candidates` spend.
fn outpoints_for(strategy: Strategy, block: &Block, candidates: &Vec<Candidate>) -> (outpoints: Vec<
    OutPoint,
>)
    requires
        forall|k: int|
            0 <= k < candidates@.len() ==> is_candidate(strategy, block@, #[trigger] candidates@[k]),
    ensures
        outpoints_view(outpoints@) == outpoints_of(block@, candidates@),
{
    let mut outpoints: Vec<OutPoint> = Vec::new();
    let mut k: usize = 0;
    while k < candidates.len()
        invariant
            k <= candidates.len(),
            outpoints.len() == k,
            forall|n: int|
                0 <= n < candidates@.len() ==> is_candidate(
                    strategy,
                    block@,
                    #[trigger] candidates@[n],
                ),
            forall|n: int| 0 <= n < k ==> (#[trigger] outpoints@[n])@ == outpoints_of(block@, candidates@)[n],
        decreases candidates.len() - k,
    {
        let c = candidates[k];
        assert(is_candidate(strategy, block@, candidates@[k as int]));
        let tx = &block.txdata[c.tx_index];
        assert(tx@ == block@[c.tx_index as int]);
        let input = &tx.input[c.input_index];
        assert(input@ == tx@.input[c.input_index as int]);
        outpoints.push(input.previous_output.duplicate());
        k += 1;
    }
    assert(outpoints_view(outpoints@) =~= outpoints_of(block@, candidates@));
    outpoints
}

impl Indexer {
    #[verifier::type_invariant]
    spec fn well_formed(&self) -> bool {
        self@.wf()
    }

    /// An idle indexer over `store`, testing inputs by `strategy`.
    pub fn new(strategy: Strategy, store: IndexStore) -> (indexer: Indexer)
        ensures
            indexer@ == (IndexerView { strategy, tip: 0, index: store@, step: Step::Idle }),
    {
        Indexer { strategy, tip: 0, store, phase: Phase::Idle }
    }

    /// The state of the scan.
    pub fn state(&self) -> (state: ScanState)
        ensures
            state == self@.step.state(),
            self@.wf(),
    {
        proof {
            use_type_invariant(self);
        }
        match self.phase {
            Phase::Idle => ScanState::Idle,
            Phase::Completed => ScanState::Completed,
            Phase::Failed(_) => ScanState::Failed,
            _ => ScanState::Running,
        }
    }

    /// The strategy by which inputs are tested.
    pub fn strategy(&self) -> (strategy: Strategy)
        ensures
            strategy == self@.strategy,
    {
        self.strategy
    }

    /// The index.
    pub fn store(&self) -> (store: &IndexStore)
        ensures
            store@ == self@.index,
    {
        &self.store
    }

    /// Gives the index back and ends the indexer.
    pub fn into_store(self) -> (store: IndexStore)
        ensures
            store@ == self@.index,
    {
        self.store
    }

    fn begin(strategy: Strategy, store: IndexStore, tip: u64) -> (out: (Indexer, Action))
        ensures
            (out.0@, out.1@) == (IndexerView { strategy, tip, index: store@, step: Step::Idle }).begin(
                tip,
            ),
            out.0@.strategy == strategy,
            out.0@.index == store@,
    {
        let from = store.get_checkpoint();
        if from < scan_limit(tip) {
            (
                Indexer { strategy, tip, store, phase: Phase::AwaitBlock { height: from } },
                Action::FetchBlock { height: from },
            )
        } else {
            (Indexer { strategy, tip, store, phase: Phase::Completed }, Action::Finish)
        }
    }

    fn advance(strategy: Strategy, tip: u64, store: IndexStore, height: u64) -> (out: (
        Indexer,
        Action,
    ))
        requires
            height < index_till(tip),
        ensures
            (out.0@, out.1@) == (IndexerView {
                strategy,
                tip,
                index: store@,
                step: Step::Idle,
            }).advance(height),
    {
        let mut store = store;
        store.set_checkpoint(height + 1);
        (
            Indexer { strategy, tip, store, phase: Phase::AwaitCheckpointStored { height } },
            Action::PersistCheckpoint { height: height + 1 },
        )
    }

    fn settle(strategy: Strategy, tip: u64, store: IndexStore, height: u64, set: MatchSet) -> (out: (
        Indexer,
        Action,
    ))
        requires
            height < index_till(tip),
            store@.next_height() == height,
        ensures
            (out.0@, out.1@) == (IndexerView {
                strategy,
                tip,
                index: store@,
                step: Step::Idle,
            }).settle(height, set@),
    {
        if set.is_empty() {
            Self::advance(strategy, tip, store, height)
        } else {
            let mut store = store;
            store.add_matches(height, &set);
            (
                Indexer { strategy, tip, store, phase: Phase::AwaitMatchesStored { height } },
                Action::PersistMatches { height },
            )
        }
    }

    fn fail(strategy: Strategy, tip: u64, store: IndexStore, error: IndexError) -> (out: (
        Indexer,
        Action,
    ))
        ensures
            (out.0@, out.1@) == (IndexerView {
                strategy,
                tip,
                index: store@,
                step: Step::Idle,
            }).fail(error),
    {
        (Indexer { strategy, tip, store, phase: Phase::Failed(error) }, Action::Abort { error })
    }

    fn ask_prevouts(
        strategy: Strategy,
        tip: u64,
        store: IndexStore,
        height: u64,
        block: Block,
        candidates: Vec<Candidate>,
    ) -> (out: (Indexer, Action))
        requires
            height < index_till(tip),
            store@.next_height() == height,
            strategy == Strategy::PrevoutConfirmed,
            candidates@ == candidates_of(strategy, block@),
            candidates@.len() > 0,
        ensures
            out.0@ == (IndexerView {
                strategy,
                tip,
                index: store@,
                step: Step::Prevouts { height, block: block@, candidates: candidates@ },
            }),
            out.1@ == out.0@.step.request(),
    {
        proof {
            lemma_block_fits(block);
            lemma_candidates_listed(strategy, block@);
        }
        let outpoints = outpoints_for(strategy, &block, &candidates);
        (
            Indexer { strategy, tip, store, phase: Phase::AwaitPrevouts { height, block, candidates } },
            Action::ResolvePrevouts { outpoints },
        )
    }

    fn take_block(strategy: Strategy, tip: u64, store: IndexStore, height: u64, block: Block) -> (out:
        (Indexer, Action))
        requires
            height < index_till(tip),
            store@.next_height() == height,
        ensures
            (out.0@, out.1@) == (IndexerView {
                strategy,
                tip,
                index: store@,
                step: Step::Idle,
            }).take_block(height, block@),
    {
        let candidates = parse_block(strategy, &block);
        if strategy == Strategy::PrevoutConfirmed && candidates.len() > 0 {
            Self::ask_prevouts(strategy, tip, store, height, block, candidates)
        } else {
            let set = gather_matches(&block, &candidates, None);
            Self::settle(strategy, tip, store, height, set)
        }
    }

    /// Takes `event` and says what is to be done next. The indexer that comes
    /// back stands where `next` says, and is well formed.
    pub fn step(self, event: Event) -> (out: (Indexer, Action))
        ensures
            (out.0@, out.1@) == self@.next(event@),
            out.0@.wf(),
    {
        proof {
            use_type_invariant(&self);
        }
        let Indexer { strategy, tip, store, phase } = self;
        let out = match phase {
            Phase::Idle => match event {
                Event::Start { tip: new_tip } => Self::begin(strategy, store, new_tip),
                _ => (Indexer { strategy, tip, store, phase: Phase::Idle }, Action::Wait),
            },
            Phase::Completed => match event {
                Event::Start { tip: new_tip } => Self::begin(strategy, store, new_tip),
                _ => (Indexer { strategy, tip, store, phase: Phase::Completed }, Action::Finish),
            },
            Phase::Failed(error) => match event {
                Event::Start { tip: new_tip } => Self::begin(strategy, store, new_tip),
                _ => (
                    Indexer { strategy, tip, store, phase: Phase::Failed(error) },
                    Action::Abort { error },
                ),
            },
            Phase::AwaitBlock { height } => match event {
                Event::Block(block) => Self::take_block(strategy, tip, store, height, block),
                Event::Failed(error) => Self::fail(strategy, tip, store, error),
                _ => (
                    Indexer { strategy, tip, store, phase: Phase::AwaitBlock { height } },
                    Action::FetchBlock { height },
                ),
            },
            Phase::AwaitPrevouts { height, block, candidates } => match event {
                Event::Prevouts(found) => {
                    if found.len() == candidates.len() {
                        let set = gather_matches(&block, &candidates, Some(&found));
                        Self::settle(strategy, tip, store, height, set)
                    } else {
                        Self::ask_prevouts(strategy, tip, store, height, block, candidates)
                    }
                },
                Event::Failed(error) => Self::fail(strategy, tip, store, error),
                _ => Self::ask_prevouts(strategy, tip, store, height, block, candidates),
            },
            Phase::AwaitMatchesStored { height } => match event {
                Event::Persisted => Self::advance(strategy, tip, store, height),
                Event::Failed(error) => Self::fail(strategy, tip, store, error),
                _ => (
                    Indexer { strategy, tip, store, phase: Phase::AwaitMatchesStored { height } },
                    Action::PersistMatches { height },
                ),
            },
            Phase::AwaitCheckpointStored { height } => match event {
                Event::Persisted => {
                    if height + 1 < scan_limit(tip) {
                        (
                            Indexer {
                                strategy,
                                tip,
                                store,
                                phase: Phase::AwaitBlock { height: height + 1 },
                            },
                            Action::FetchBlock { height: height + 1 },
                        )
                    } else {
                        (Indexer { strategy, tip, store, phase: Phase::Completed }, Action::Finish)
                    }
                },
                Event::Failed(error) => Self::fail(strategy, tip, store, error),
                _ => (
                    Indexer {
                        strategy,
                        tip,
                        store,
                        phase: Phase::AwaitCheckpointStored { height },
                    },
                    Action::PersistCheckpoint { height: height + 1 },
                ),
            },
        };
        proof {
            use_type_invariant(&out.0);
        }
        out
    }
}

} // verus!
