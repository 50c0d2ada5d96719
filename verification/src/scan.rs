//! What a scan does with one block, and how far a scan goes.
//!
//! A scan runs from the checkpoint up to, not including, the chain's tip less
//! the safety margin. Of each block it lists the candidates: the inputs that
//! pass what the strategy tests on the transaction itself. Under the
//! strictest strategy the outputs that the candidates spend are then looked
//! up, and a candidate counts only if its output pays to Taproot. The
//! transactions of the candidates that count are the matches of the block.

use vstd::prelude::*;
use crate::bytes::contains_byte;
use crate::matches::{
    distinct_txids,
    has_txid,
    inserted,
    lemma_inserted_distinct,
    lemma_inserted_has,
    MatchSet,
};
use crate::tx::{lemma_block_fits, Block, OutPointView, Transaction, TransactionView};
use crate::witness::{
    prevout_is_taproot,
    prevout_pays_taproot,
    prevout_view,
    stack_has_byte,
    stack_includes_cat,
    witness_has_opcode_byte,
    witness_includes_cat,
    OP_CAT,
};

verus! {

/// The number of blocks below the tip that are left alone, since they may
/// still be reorganised.
pub const SAFETY_MARGIN: u64 = 6;

/// The first height that is not indexed when the chain's tip is `tip`: the
/// tip less the safety margin, or zero for a chain shorter than the margin.
pub open spec fn index_till(tip: u64) -> u64 {
    if tip < SAFETY_MARGIN {
        0
    } else {
        (tip - SAFETY_MARGIN) as u64
    }
}

/// The first height that is not indexed when the chain's tip is `tip`.
pub fn scan_limit(tip: u64) -> (till: u64)
    ensures
        till == index_till(tip),
{
    if tip < SAFETY_MARGIN {
        0
    } else {
        tip - SAFETY_MARGIN
    }
}

/// How strictly an input is tested.
#[derive(Debug, Clone, Copy, PartialEq, Eq, Structural)]
pub enum Strategy {
    /// The byte of `OP_CAT` stands somewhere in the witness.
    ByteScan,
    /// The tapscript's assembly text names `OP_CAT`.
    Tapscript,
    /// The transaction's encoding holds the byte of `OP_CAT`, the tapscript's
    /// assembly text names `OP_CAT`, and the spent output pays to Taproot.
    PrevoutConfirmed,
}

impl Default for Strategy {
    /// The strictest strategy.
    fn default() -> (strategy: Strategy)
        ensures
            strategy == Strategy::PrevoutConfirmed,
    {
        Strategy::PrevoutConfirmed
    }
}

/// The place of an input in a block: the number of its transaction in the
/// block, and its own number in that transaction.
#[derive(Debug, Clone, Copy, PartialEq, Eq, Structural)]
pub struct Candidate {
    pub tx_index: usize,
    pub input_index: usize,
}

/// The input `j` of `tx` passes what `strategy` tests on the transaction
/// itself. For the strictest strategy the spent output is still to be looked
/// up.
pub open spec fn input_passes(strategy: Strategy, tx: TransactionView, j: int) -> bool {
    &&& 0 <= j < tx.input.len()
    &&& match strategy {
        Strategy::ByteScan => stack_has_byte(tx.input[j].witness, OP_CAT),
        Strategy::Tapscript => stack_includes_cat(tx.input[j].witness),
        Strategy::PrevoutConfirmed => tx.raw.contains(OP_CAT) && stack_includes_cat(
            tx.input[j].witness,
        ),
    }
}

/// The passing inputs among the first `upto` inputs of the transaction `tx`,
/// which is number `i` in its block.
pub open spec fn candidates_in_tx(strategy: Strategy, tx: TransactionView, i: usize, upto: nat) -> Seq<
    Candidate,
>
    decreases upto,
{
    if upto == 0 {
        Seq::empty()
    } else {
        let before = candidates_in_tx(strategy, tx, i, (upto - 1) as nat);
        if input_passes(strategy, tx, upto - 1) {
            before.push(Candidate { tx_index: i, input_index: (upto - 1) as usize })
        } else {
            before
        }
    }
}

/// The passing inputs of the first `upto` transactions of `block`.
pub open spec fn candidates_upto(strategy: Strategy, block: Seq<TransactionView>, upto: nat) -> Seq<
    Candidate,
>
    decreases upto,
{
    if upto == 0 {
        Seq::empty()
    } else {
        candidates_upto(strategy, block, (upto - 1) as nat) + candidates_in_tx(
            strategy,
            block[upto - 1],
            (upto - 1) as usize,
            block[upto - 1].input.len(),
        )
    }
}

/// The inputs of `block` that pass what `strategy` tests on the transaction
/// itself, in the order of the block.
pub open spec fn candidates_of(strategy: Strategy, block: Seq<TransactionView>) -> Seq<Candidate> {
    candidates_upto(strategy, block, block.len())
}

/// The place `c` is that of an input of `block` which passes what `strategy`
/// tests on the transaction itself.
pub open spec fn is_candidate(strategy: Strategy, block: Seq<TransactionView>, c: Candidate) -> bool {
    &&& c.tx_index < block.len()
    &&& input_passes(strategy, block[c.tx_index as int], c.input_index as int)
}

/// The place `a` comes before the place `b` in a block.
pub open spec fn comes_before(a: Candidate, b: Candidate) -> bool {
    a.tx_index < b.tx_index || (a.tx_index == b.tx_index && a.input_index < b.input_index)
}

/// `candidates` lists the passing inputs of `block`: each place in it is one,
/// they stand in the order of the block, and none is left out.
pub open spec fn lists_candidates(
    strategy: Strategy,
    block: Seq<TransactionView>,
    candidates: Seq<Candidate>,
) -> bool {
    &&& forall|k: int|
        0 <= k < candidates.len() ==> is_candidate(strategy, block, #[trigger] candidates[k])
    &&& forall|k: int, l: int|
        0 <= k < l < candidates.len() ==> comes_before(
            #[trigger] candidates[k],
            #[trigger] candidates[l],
        )
    &&& forall|c: Candidate| #[trigger]
        is_candidate(strategy, block, c) ==> candidates.contains(c)
}

/// The candidates of one transaction are its passing inputs, in order, none
/// left out.
pub proof fn lemma_candidates_in_tx(strategy: Strategy, tx: TransactionView, i: usize, upto: nat)
    requires
        upto <= tx.input.len() <= usize::MAX,
    ensures
        forall|k: int|
            0 <= k < candidates_in_tx(strategy, tx, i, upto).len() ==> {
                let c = #[trigger] candidates_in_tx(strategy, tx, i, upto)[k];
                &&& c.tx_index == i
                &&& c.input_index < upto
                &&& input_passes(strategy, tx, c.input_index as int)
            },
        forall|k: int, l: int|
            0 <= k < l < candidates_in_tx(strategy, tx, i, upto).len() ==> (
            #[trigger] candidates_in_tx(strategy, tx, i, upto)[k]).input_index < (
            #[trigger] candidates_in_tx(strategy, tx, i, upto)[l]).input_index,
        forall|j: int|
            0 <= j < upto && #[trigger] input_passes(strategy, tx, j) ==> candidates_in_tx(
                strategy,
                tx,
                i,
                upto,
            ).contains(Candidate { tx_index: i, input_index: j as usize }),
    decreases upto,
{
    if upto > 0 {
        lemma_candidates_in_tx(strategy, tx, i, (upto - 1) as nat);
        let before = candidates_in_tx(strategy, tx, i, (upto - 1) as nat);
        let now = candidates_in_tx(strategy, tx, i, upto);
        assert forall|k: int| 0 <= k < now.len() implies {
            let c = #[trigger] now[k];
            &&& c.tx_index == i
            &&& c.input_index < upto
            &&& input_passes(strategy, tx, c.input_index as int)
        } by {
            if k < before.len() {
                assert(now[k] == before[k]);
            }
        }
        assert forall|k: int, l: int| 0 <= k < l < now.len() implies (#[trigger] now[k]).input_index
            < (#[trigger] now[l]).input_index by {
            assert(now[k] == before[k]);
            if l < before.len() {
                assert(now[l] == before[l]);
            }
        }
        assert forall|j: int| 0 <= j < upto && #[trigger] input_passes(strategy, tx, j) implies now.contains(
            Candidate { tx_index: i, input_index: j as usize },
        ) by {
            let c = Candidate { tx_index: i, input_index: j as usize };
            if j < upto - 1 {
                assert(before.contains(c));
                let k = choose|k: int| 0 <= k < before.len() && before[k] == c;
                assert(now[k] == c);
            } else {
                assert(now[now.len() - 1] == c);
            }
        }
    }
}

/// The candidates of the first transactions of a block are the passing
/// inputs of those transactions, in order, none left out.
pub proof fn lemma_candidates_upto(strategy: Strategy, block: Seq<TransactionView>, upto: nat)
    requires
        upto <= block.len() <= usize::MAX,
        forall|i: int| 0 <= i < block.len() ==> (#[trigger] block[i]).input.len() <= usize::MAX,
    ensures
        forall|k: int|
            0 <= k < candidates_upto(strategy, block, upto).len() ==> {
                let c = #[trigger] candidates_upto(strategy, block, upto)[k];
                &&& c.tx_index < upto
                &&& is_candidate(strategy, block, c)
            },
        forall|k: int, l: int|
            0 <= k < l < candidates_upto(strategy, block, upto).len() ==> comes_before(
                #[trigger] candidates_upto(strategy, block, upto)[k],
                #[trigger] candidates_upto(strategy, block, upto)[l],
            ),
        forall|c: Candidate|
            c.tx_index < upto && #[trigger] is_candidate(strategy, block, c) ==> candidates_upto(
                strategy,
                block,
                upto,
            ).contains(c),
    decreases upto,
{
    if upto > 0 {
        let at = (upto - 1) as usize;
        lemma_candidates_upto(strategy, block, (upto - 1) as nat);
        lemma_candidates_in_tx(strategy, block[upto - 1], at, block[upto - 1].input.len());
        let before = candidates_upto(strategy, block, (upto - 1) as nat);
        let added = candidates_in_tx(strategy, block[upto - 1], at, block[upto - 1].input.len());
        let now = candidates_upto(strategy, block, upto);
        assert(now == before + added);
        assert forall|k: int| 0 <= k < now.len() implies {
            let c = #[trigger] now[k];
            &&& c.tx_index < upto
            &&& is_candidate(strategy, block, c)
        } by {
            if k < before.len() {
                assert(now[k] == before[k]);
            } else {
                assert(now[k] == added[k - before.len()]);
            }
        }
        assert forall|k: int, l: int| 0 <= k < l < now.len() implies comes_before(
            #[trigger] now[k],
            #[trigger] now[l],
        ) by {
            if l < before.len() {
                assert(now[k] == before[k]);
                assert(now[l] == before[l]);
            } else if k < before.len() {
                assert(now[k] == before[k]);
                assert(now[l] == added[l - before.len()]);
            } else {
                assert(now[k] == added[k - before.len()]);
                assert(now[l] == added[l - before.len()]);
            }
        }
        assert forall|c: Candidate|
            c.tx_index < upto && #[trigger] is_candidate(strategy, block, c) implies now.contains(
            c,
        ) by {
            if c.tx_index < upto - 1 {
                assert(before.contains(c));
                let k = choose|k: int| 0 <= k < before.len() && before[k] == c;
                assert(now[k] == c);
            } else {
                let j = c.input_index as int;
                assert(input_passes(strategy, block[upto - 1], j));
                assert(c == Candidate { tx_index: at, input_index: j as usize });
                assert(added.contains(c));
                let k = choose|k: int| 0 <= k < added.len() && added[k] == c;
                assert(now[before.len() + k] == c);
            }
        }
    }
}

/// The candidates of a block are its passing inputs: each of them is one,
/// they stand in the order of the block, and none is left out. This holds of
/// every block that fits in memory.
pub proof fn lemma_candidates_listed(strategy: Strategy, block: Seq<TransactionView>)
    requires
        block.len() <= usize::MAX,
        forall|i: int| 0 <= i < block.len() ==> (#[trigger] block[i]).input.len() <= usize::MAX,
    ensures
        lists_candidates(strategy, block, candidates_of(strategy, block)),
{
    lemma_candidates_upto(strategy, block, block.len());
}

/// The outputs that the inputs at `candidates` spend.
pub open spec fn outpoints_of(block: Seq<TransactionView>, candidates: Seq<Candidate>) -> Seq<
    OutPointView,
> {
    Seq::new(
        candidates.len(),
        |k: int| block[candidates[k].tx_index as int].input[candidates[k].input_index as int].previous_output,
    )
}

/// Looked-up output scripts as plain values.
pub open spec fn prevouts_view(prevouts: Seq<Option<Vec<u8>>>) -> Seq<Option<Seq<u8>>> {
    Seq::new(prevouts.len(), |k: int| prevout_view(prevouts[k]))
}

/// The candidate number `k` counts as a match. Without a lookup every
/// candidate counts; with one, those whose spent output pays to Taproot.
pub open spec fn accepted(prevouts: Option<Seq<Option<Seq<u8>>>>, k: int) -> bool {
    match prevouts {
        None => true,
        Some(found) => 0 <= k < found.len() && prevout_pays_taproot(found[k]),
    }
}

/// The matched transactions of `block`: those with a candidate that counts,
/// in the order of the block, each identity once.
pub open spec fn gathered(
    block: Seq<TransactionView>,
    candidates: Seq<Candidate>,
    prevouts: Option<Seq<Option<Seq<u8>>>>,
) -> Seq<TransactionView>
    decreases candidates.len(),
{
    if candidates.len() == 0 {
        Seq::empty()
    } else {
        let before = gathered(block, candidates.drop_last(), prevouts);
        let k = candidates.len() - 1;
        if candidates[k].tx_index < block.len() && accepted(prevouts, k) {
            inserted(before, block[candidates[k].tx_index as int])
        } else {
            before
        }
    }
}

/// The candidate number `k` counts and lies in `block`.
pub open spec fn counts(
    block: Seq<TransactionView>,
    candidates: Seq<Candidate>,
    prevouts: Option<Seq<Option<Seq<u8>>>>,
    k: int,
) -> bool {
    &&& 0 <= k < candidates.len()
    &&& candidates[k].tx_index < block.len()
    &&& accepted(prevouts, k)
}

/// Some candidate that counts belongs to a transaction of the identity
/// `txid`.
pub open spec fn matched_by(
    block: Seq<TransactionView>,
    candidates: Seq<Candidate>,
    prevouts: Option<Seq<Option<Seq<u8>>>>,
    txid: Seq<u8>,
) -> bool {
    exists|k: int| #[trigger]
        counts(block, candidates, prevouts, k) && block[candidates[k].tx_index as int].txid
            == txid
}

/// The matched transactions of a block are those with a candidate that
/// counts: an identity is among them exactly if such a candidate belongs to a
/// transaction of that identity. No identity is there twice.
pub proof fn lemma_gathered(
    block: Seq<TransactionView>,
    candidates: Seq<Candidate>,
    prevouts: Option<Seq<Option<Seq<u8>>>>,
)
    ensures
        distinct_txids(gathered(block, candidates, prevouts)),
        forall|txid: Seq<u8>| #[trigger]
            has_txid(gathered(block, candidates, prevouts), txid) <==> matched_by(
                block,
                candidates,
                prevouts,
                txid,
            ),
    decreases candidates.len(),
{
    let now = gathered(block, candidates, prevouts);
    if candidates.len() == 0 {
        assert forall|txid: Seq<u8>| #[trigger]
            has_txid(now, txid) <==> matched_by(block, candidates, prevouts, txid) by {}
    } else {
        let rest = candidates.drop_last();
        let before = gathered(block, rest, prevouts);
        let last = candidates.len() - 1;
        lemma_gathered(block, rest, prevouts);
        let tx = block[candidates[last].tx_index as int];
        if counts(block, candidates, prevouts, last) {
            lemma_inserted_distinct(before, tx);
            lemma_inserted_has(before, tx);
        }
        assert forall|txid: Seq<u8>| #[trigger]
            has_txid(now, txid) <==> matched_by(block, candidates, prevouts, txid) by {
            assert(has_txid(before, txid) <==> matched_by(block, rest, prevouts, txid));
            if matched_by(block, rest, prevouts, txid) {
                let k = choose|k: int| #[trigger]
                    counts(block, rest, prevouts, k) && block[rest[k].tx_index as int].txid
                        == txid;
                assert(counts(block, candidates, prevouts, k));
                assert(candidates[k] == rest[k]);
            }
            if matched_by(block, candidates, prevouts, txid) {
                let k = choose|k: int| #[trigger]
                    counts(block, candidates, prevouts, k) && block[candidates[k].tx_index as int].txid
                        == txid;
                if k < last {
                    assert(counts(block, rest, prevouts, k));
                    assert(candidates[k] == rest[k]);
                    assert(matched_by(block, rest, prevouts, txid));
                }
            }
            if counts(block, candidates, prevouts, last) && txid == tx.txid {
                assert(matched_by(block, candidates, prevouts, txid));
            }
        }
    }
}

/// Some transaction of `block` has the identity `txid` and an input that
/// passes what `strategy` tests on the transaction itself.
pub open spec fn block_has_match(strategy: Strategy, block: Seq<TransactionView>, txid: Seq<u8>) -> bool {
    exists|i: int, j: int|
        0 <= i < block.len() && block[i].txid == txid && #[trigger] input_passes(
            strategy,
            block[i],
            j,
        )
}

/// Where no spent outputs are looked up, the matched transactions of a block
/// are those with an input that passes: an identity is among the matches
/// exactly if a transaction of that identity has a passing input.
pub proof fn lemma_block_matches(strategy: Strategy, block: Seq<TransactionView>, txid: Seq<u8>)
    requires
        block.len() <= usize::MAX,
        forall|i: int| 0 <= i < block.len() ==> (#[trigger] block[i]).input.len() <= usize::MAX,
    ensures
        has_txid(gathered(block, candidates_of(strategy, block), None), txid) <==> block_has_match(
            strategy,
            block,
            txid,
        ),
{
    let candidates = candidates_of(strategy, block);
    lemma_candidates_listed(strategy, block);
    lemma_gathered(block, candidates, None);
    assert(has_txid(gathered(block, candidates, None), txid) <==> matched_by(
        block,
        candidates,
        None,
        txid,
    ));
    if matched_by(block, candidates, None, txid) {
        let k = choose|k: int| #[trigger]
            counts(block, candidates, None, k) && block[candidates[k].tx_index as int].txid
                == txid;
        assert(is_candidate(strategy, block, candidates[k]));
        assert(input_passes(
            strategy,
            block[candidates[k].tx_index as int],
            candidates[k].input_index as int,
        ));
    }
    if block_has_match(strategy, block, txid) {
        let (i, j) = choose|i: int, j: int|
            0 <= i < block.len() && block[i].txid == txid && #[trigger] input_passes(
                strategy,
                block[i],
                j,
            );
        let c = Candidate { tx_index: i as usize, input_index: j as usize };
        assert(is_candidate(strategy, block, c));
        assert(candidates.contains(c));
        let k = choose|k: int| 0 <= k < candidates.len() && candidates[k] == c;
        assert(counts(block, candidates, None, k));
    }
}

/// Tells whether the input `j` of `tx` passes what `strategy` tests on the
/// transaction itself. An input that `tx` does not have passes nothing.
pub fn input_matches(strategy: Strategy, tx: &Transaction, j: usize) -> (passes: bool)
    ensures
        passes == input_passes(strategy, tx@, j as int),
{
    if j >= tx.input.len() {
        return false;
    }
    match strategy {
        Strategy::ByteScan => witness_has_opcode_byte(&tx.input[j].witness),
        Strategy::Tapscript => witness_includes_cat(&tx.input[j].witness),
        Strategy::PrevoutConfirmed => {
            contains_byte(tx.raw.as_slice(), OP_CAT) && witness_includes_cat(&tx.input[j].witness)
        },
    }
}

/// Goes through the transactions of `block` and their inputs in order and
/// lists the inputs that pass what `strategy` tests on the transaction
/// itself.
pub fn parse_block(strategy: Strategy, block: &Block) -> (candidates: Vec<Candidate>)
    ensures
        candidates@ == candidates_of(strategy, block@),
        lists_candidates(strategy, block@, candidates@),
{
    proof {
        lemma_block_fits(*block);
        lemma_candidates_listed(strategy, block@);
    }
    let mut candidates: Vec<Candidate> = Vec::new();
    let mut i: usize = 0;
    while i < block.txdata.len()
        invariant
            i <= block.txdata.len(),
            candidates@ == candidates_upto(strategy, block@, i as nat),
        decreases block.txdata.len() - i,
    {
        let tx = &block.txdata[i];
        let ghost done = candidates@;
        let mut j: usize = 0;
        while j < tx.input.len()
            invariant
                j <= tx.input.len(),
                candidates@ == done + candidates_in_tx(strategy, tx@, i, j as nat),
            decreases tx.input.len() - j,
        {
            if input_matches(strategy, tx, j) {
                candidates.push(Candidate { tx_index: i, input_index: j });
                assert(candidates@ =~= done + candidates_in_tx(strategy, tx@, i, (j + 1) as nat));
            }
            j += 1;
        }
        assert(block@[i as int] == tx@);
        i += 1;
    }
    candidates
}

/// Picks the matched transactions of `block` from its candidates. `prevouts`
/// holds, where the spent outputs were looked up, the output script found for
/// each candidate, or `None` for an output that does not exist; a candidate
/// then counts if that script pays to Taproot. Without a lookup every
/// candidate counts.
pub fn gather_matches(
    block: &Block,
    candidates: &Vec<Candidate>,
    prevouts: Option<&Vec<Option<Vec<u8>>>>,
) -> (set: MatchSet)
    ensures
        set@ == gathered(
            block@,
            candidates@,
            match prevouts {
                Some(found) => Some(prevouts_view(found@)),
                None => None,
            },
        ),
        distinct_txids(set@),
{
    let ghost looked_up = match prevouts {
        Some(found) => Some(prevouts_view(found@)),
        None => None,
    };
    let mut set = MatchSet::new();
    let mut k: usize = 0;
    while k < candidates.len()
        invariant
            k <= candidates.len(),
            looked_up == match prevouts {
                Some(found) => Some(prevouts_view(found@)),
                None => None,
            },
            set@ == gathered(block@, candidates@.take(k as int), looked_up),
        decreases candidates.len() - k,
    {
        assert(candidates@.take(k + 1).drop_last() =~= candidates@.take(k as int));
        let counts = match prevouts {
            None => true,
            Some(found) => k < found.len() && prevout_is_taproot(&found[k]),
        };
        let at: usize = candidates[k].tx_index;
        if at < block.txdata.len() && counts {
            set.insert(block.txdata[at].duplicate());
        }
        k += 1;
    }
    assert(candidates@.take(k as int) =~= candidates@);
    proof {
        lemma_gathered(block@, candidates@, looked_up);
    }
    set
}

} // verus!
