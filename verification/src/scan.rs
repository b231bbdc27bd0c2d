//! Per-block aggregation of spent-input statistics and the height-range scan.
//!
//! The undo data of one block is modelled as a sequence of transactions, each
//! a sequence of spent inputs, each carrying the raw bytes of the script
//! public key it spends. The host binary fetches that data from the chain
//! database and hands it over as plain nested vectors; everything from there
//! on is computed and proved here.

use vstd::prelude::*;

use crate::classify::is_p2tr;
use crate::classify::spec_is_p2tr;

verus! {

/// Statistics over the spent inputs of all transactions of one block.
#[derive(Clone, Copy, Debug, PartialEq, Eq, Structural)]
pub struct BlockResult {
    pub height: i32,
    pub total_txs: u32,
    pub total_inputs: u32,
    /// Transactions spending at least one Taproot and one non-Taproot input.
    pub mixed_tx_count: u32,
    /// Inputs that spend a Taproot output (these carry Schnorr signatures).
    pub schnorr_sigs: u32,
    /// Inputs that spend any other kind of output.
    pub non_schnorr_sigs: u32,
}

/// How many of a transaction's spent inputs are Taproot spends.
pub open spec fn count_p2tr(tx: Seq<Seq<u8>>) -> nat
    decreases tx.len(),
{
    if tx.len() == 0 {
        0
    } else {
        count_p2tr(tx.drop_last()) + if spec_is_p2tr(tx.last()) {
            1nat
        } else {
            0nat
        }
    }
}

/// A transaction is mixed when it spends at least one Taproot input and at
/// least one non-Taproot input.
pub open spec fn tx_is_mixed(tx: Seq<Seq<u8>>) -> bool {
    0 < count_p2tr(tx) < tx.len()
}

/// Total number of spent inputs over all transactions of a block.
pub open spec fn total_inputs_of(undo: Seq<Seq<Seq<u8>>>) -> nat
    decreases undo.len(),
{
    if undo.len() == 0 {
        0
    } else {
        total_inputs_of(undo.drop_last()) + undo.last().len()
    }
}

/// Total number of Taproot spends over all transactions of a block.
pub open spec fn p2tr_inputs_of(undo: Seq<Seq<Seq<u8>>>) -> nat
    decreases undo.len(),
{
    if undo.len() == 0 {
        0
    } else {
        p2tr_inputs_of(undo.drop_last()) + count_p2tr(undo.last())
    }
}

/// Number of mixed transactions in a block.
pub open spec fn mixed_txs_of(undo: Seq<Seq<Seq<u8>>>) -> nat
    decreases undo.len(),
{
    if undo.len() == 0 {
        0
    } else {
        mixed_txs_of(undo.drop_last()) + if tx_is_mixed(undo.last()) {
            1nat
        } else {
            0nat
        }
    }
}

/// The counters of a block fit the result's fields.
pub open spec fn undo_fits(undo: Seq<Seq<Seq<u8>>>) -> bool {
    &&& undo.len() <= u32::MAX
    &&& total_inputs_of(undo) <= u32::MAX
}

/// The statistics of one block, as a function of its height and undo data.
pub open spec fn spec_block_result(height: i32, undo: Seq<Seq<Seq<u8>>>) -> BlockResult {
    BlockResult {
        height,
        total_txs: undo.len() as u32,
        total_inputs: total_inputs_of(undo) as u32,
        mixed_tx_count: mixed_txs_of(undo) as u32,
        schnorr_sigs: p2tr_inputs_of(undo) as u32,
        non_schnorr_sigs: (total_inputs_of(undo) - p2tr_inputs_of(undo)) as u32,
    }
}

pub proof fn lemma_count_p2tr_le_len(tx: Seq<Seq<u8>>)
    ensures
        count_p2tr(tx) <= tx.len(),
    decreases tx.len(),
{
    if tx.len() > 0 {
        lemma_count_p2tr_le_len(tx.drop_last());
    }
}

pub proof fn lemma_p2tr_le_total(undo: Seq<Seq<Seq<u8>>>)
    ensures
        p2tr_inputs_of(undo) <= total_inputs_of(undo),
    decreases undo.len(),
{
    if undo.len() > 0 {
        lemma_p2tr_le_total(undo.drop_last());
        lemma_count_p2tr_le_len(undo.last());
    }
}

pub proof fn lemma_mixed_le_txs(undo: Seq<Seq<Seq<u8>>>)
    ensures
        mixed_txs_of(undo) <= undo.len(),
    decreases undo.len(),
{
    if undo.len() > 0 {
        lemma_mixed_le_txs(undo.drop_last());
    }
}

/// A prefix of a block's transactions has no more inputs than the block.
pub proof fn lemma_total_inputs_take_le(undo: Seq<Seq<Seq<u8>>>, i: int)
    requires
        0 <= i <= undo.len(),
    ensures
        total_inputs_of(undo.take(i)) <= total_inputs_of(undo),
    decreases undo.len() - i,
{
    if i == undo.len() {
        assert(undo.take(i) =~= undo);
    } else {
        lemma_total_inputs_take_le(undo, i + 1);
        assert(undo.take(i + 1).drop_last() =~= undo.take(i));
    }
}

/// Every spent input is counted exactly once, as a Taproot spend or as a
/// non-Taproot spend, and only whole transactions count as mixed.
pub proof fn lemma_block_result_wf(height: i32, undo: Seq<Seq<Seq<u8>>>)
    requires
        undo_fits(undo),
    ensures
        result_wf(spec_block_result(height, undo)),
{
    lemma_p2tr_le_total(undo);
    lemma_mixed_le_txs(undo);
}

/// The two invariants every reported block result satisfies: Taproot and
/// non-Taproot spends partition the inputs, and mixed transactions are a
/// subset of all transactions.
pub open spec fn result_wf(r: BlockResult) -> bool {
    &&& r.schnorr_sigs + r.non_schnorr_sigs == r.total_inputs
    &&& r.mixed_tx_count <= r.total_txs
}

/// Count the Taproot spends among one transaction's inputs.
fn count_tx_p2tr(tx: &Vec<Vec<u8>>) -> (n: usize)
    ensures
        n == count_p2tr(tx.deep_view()),
        n <= tx.deep_view().len(),
{
    let ghost txs = tx.deep_view();
    let mut n: usize = 0;
    let mut j: usize = 0;
    while j < tx.len()
        invariant
            j <= tx@.len(),
            txs == tx.deep_view(),
            txs.len() == tx@.len(),
            n == count_p2tr(txs.take(j as int)),
            n <= j,
        decreases tx@.len() - j,
    {
        proof {
            assert(txs.take(j + 1).drop_last() =~= txs.take(j as int));
            assert(txs[j as int] =~= tx@[j as int]@);
        }
        if is_p2tr(&tx[j]) {
            n = n + 1;
        }
        j = j + 1;
    }
    proof {
        assert(txs.take(tx@.len() as int) =~= txs);
    }
    n
}

/// Compute the statistics of one block from its height and undo data.
pub fn block_result_from_undo(height: i32, undo: &Vec<Vec<Vec<u8>>>) -> (r: BlockResult)
    requires
        undo_fits(undo.deep_view()),
    ensures
        r == spec_block_result(height, undo.deep_view()),
        result_wf(r),
{
    let ghost u = undo.deep_view();
    let mut total_inputs: u32 = 0;
    let mut schnorr: u32 = 0;
    let mut mixed: u32 = 0;
    let mut i: usize = 0;
    while i < undo.len()
        invariant
            i <= undo@.len(),
            u == undo.deep_view(),
            u.len() == undo@.len(),
            undo_fits(u),
            total_inputs == total_inputs_of(u.take(i as int)),
            schnorr == p2tr_inputs_of(u.take(i as int)),
            mixed == mixed_txs_of(u.take(i as int)),
        decreases undo@.len() - i,
    {
        proof {
            assert(u.take(i + 1).drop_last() =~= u.take(i as int));
            assert(u[i as int] =~= undo@[i as int].deep_view());
            lemma_total_inputs_take_le(u, i + 1);
            lemma_p2tr_le_total(u.take(i + 1));
            lemma_mixed_le_txs(u.take(i + 1));
        }
        let tx = &undo[i];
        let n_inputs = tx.len();
        let n_p2tr = count_tx_p2tr(tx);
        total_inputs = total_inputs + (n_inputs as u32);
        schnorr = schnorr + (n_p2tr as u32);
        if n_p2tr > 0 && n_p2tr < n_inputs {
            mixed = mixed + 1;
        }
        i = i + 1;
    }
    proof {
        assert(u.take(undo@.len() as int) =~= u);
        lemma_block_result_wf(height, u);
    }
    BlockResult {
        height,
        total_txs: undo.len() as u32,
        total_inputs,
        mixed_tx_count: mixed,
        schnorr_sigs: schnorr,
        non_schnorr_sigs: total_inputs - schnorr,
    }
}

/// What fetching one height from the chain database came to.
pub enum HeightOutcome {
    /// The chain has no block index at this height; the height is skipped.
    NotFound,
    /// The block exists but its undo data could not be read; the height is
    /// reported with all counts zero.
    UndoUnavailable,
    /// The undo data: for each transaction, the script public key spent by
    /// each of its inputs.
    Undo(Vec<Vec<Vec<u8>>>),
}

/// The all-zero statistics reported for a block whose undo data is missing.
pub open spec fn zero_result(height: i32) -> BlockResult {
    BlockResult {
        height,
        total_txs: 0,
        total_inputs: 0,
        mixed_tx_count: 0,
        schnorr_sigs: 0,
        non_schnorr_sigs: 0,
    }
}

/// The counters of an outcome's undo data fit the result's fields.
pub open spec fn outcome_fits(outcome: HeightOutcome) -> bool {
    match outcome {
        HeightOutcome::Undo(u) => undo_fits(u.deep_view()),
        _ => true,
    }
}

/// Decide whether a block's counters fit the result's fields, so that a
/// caller that cannot prove it can check before asking for the statistics.
pub fn undo_counts_fit(undo: &Vec<Vec<Vec<u8>>>) -> (r: bool)
    ensures
        r == undo_fits(undo.deep_view()),
{
    let ghost u = undo.deep_view();
    if undo.len() > u32::MAX as usize {
        return false;
    }
    let mut sum: u64 = 0;
    let mut i: usize = 0;
    while i < undo.len()
        invariant
            i <= undo@.len(),
            u == undo.deep_view(),
            u.len() == undo@.len(),
            sum == total_inputs_of(u.take(i as int)),
            sum <= u32::MAX,
        decreases undo@.len() - i,
    {
        proof {
            assert(u.take(i + 1).drop_last() =~= u.take(i as int));
            assert(u[i as int] =~= undo@[i as int].deep_view());
            lemma_total_inputs_take_le(u, i + 1);
        }
        let n = undo[i].len();
        if n > u32::MAX as usize || sum + (n as u64) > u32::MAX as u64 {
            return false;
        }
        sum = sum + (n as u64);
        i = i + 1;
    }
    proof {
        assert(u.take(undo@.len() as int) =~= u);
    }
    true
}

/// Decide whether the counters of an outcome's undo data fit the result's
/// fields.
pub fn outcome_counts_fit(outcome: &HeightOutcome) -> (r: bool)
    ensures
        r == outcome_fits(*outcome),
{
    match outcome {
        HeightOutcome::Undo(u) => undo_counts_fit(u),
        _ => true,
    }
}

/// What one height contributes to the scan: nothing when its block index is
/// missing, zero counts when only its undo data is, its statistics otherwise.
pub open spec fn spec_height_result(height: i32, outcome: HeightOutcome) -> Option<BlockResult> {
    match outcome {
        HeightOutcome::NotFound => None,
        HeightOutcome::UndoUnavailable => Some(zero_result(height)),
        HeightOutcome::Undo(u) => Some(spec_block_result(height, u.deep_view())),
    }
}

/// The result of one height of the scan.
pub fn result_for_height(height: i32, outcome: &HeightOutcome) -> (r: Option<BlockResult>)
    requires
        outcome_fits(*outcome),
    ensures
        r == spec_height_result(height, *outcome),
{
    match outcome {
        HeightOutcome::NotFound => None,
        HeightOutcome::UndoUnavailable => Some(
            BlockResult {
                height,
                total_txs: 0,
                total_inputs: 0,
                mixed_tx_count: 0,
                schnorr_sigs: 0,
                non_schnorr_sigs: 0,
            },
        ),
        HeightOutcome::Undo(u) => Some(block_result_from_undo(height, u)),
    }
}

/// The results of a scan that started at `start` and saw these outcomes, one
/// per consecutive height, in ascending height order.
pub open spec fn spec_scan(start: int, outcomes: Seq<HeightOutcome>) -> Seq<BlockResult>
    decreases outcomes.len(),
{
    if outcomes.len() == 0 {
        Seq::empty()
    } else {
        let prefix = spec_scan(start, outcomes.drop_last());
        match spec_height_result((start + outcomes.len() - 1) as i32, outcomes.last()) {
            None => prefix,
            Some(r) => prefix.push(r),
        }
    }
}

/// What a scan guarantees of its results: every result is well formed and
/// comes from the outcome of its own height, heights are strictly ascending
/// within the scanned range, and a height is absent exactly when its block
/// index was not found.
pub proof fn lemma_scan_props(start: int, outcomes: Seq<HeightOutcome>)
    requires
        i32::MIN <= start,
        start + outcomes.len() - 1 <= i32::MAX,
        forall|k: int| 0 <= k < outcomes.len() ==> outcome_fits(#[trigger] outcomes[k]),
    ensures
        forall|i: int, j: int|
            0 <= i < j < spec_scan(start, outcomes).len() ==> #[trigger] spec_scan(
                start,
                outcomes,
            )[i].height < #[trigger] spec_scan(start, outcomes)[j].height,
        forall|i: int|
            0 <= i < spec_scan(start, outcomes).len() ==> start <= #[trigger] spec_scan(
                start,
                outcomes,
            )[i].height < start + outcomes.len(),
        forall|i: int|
            0 <= i < spec_scan(start, outcomes).len() ==> spec_height_result(
                #[trigger] spec_scan(start, outcomes)[i].height,
                outcomes[spec_scan(start, outcomes)[i].height - start],
            ) == Some(spec_scan(start, outcomes)[i]),
        forall|i: int|
            0 <= i < spec_scan(start, outcomes).len() ==> result_wf(
                #[trigger] spec_scan(start, outcomes)[i],
            ),
        forall|k: int|
            0 <= k < outcomes.len() ==> (!(#[trigger] outcomes[k] is NotFound) <==> exists|i: int|
                0 <= i < spec_scan(start, outcomes).len() && (#[trigger] spec_scan(
                    start,
                    outcomes,
                )[i]).height == start + k),
    decreases outcomes.len(),
{
    if outcomes.len() > 0 {
        let s = spec_scan(start, outcomes);
        let p = spec_scan(start, outcomes.drop_last());
        lemma_scan_props(start, outcomes.drop_last());
        let h = (start + outcomes.len() - 1) as i32;
        match spec_height_result(h, outcomes.last()) {
            None => {
                assert(s == p);
                assert forall|k: int| 0 <= k < outcomes.len() implies (!(#[trigger] outcomes[k]
                    is NotFound) <==> exists|i: int|
                    0 <= i < s.len() && (#[trigger] s[i]).height == start + k) by {
                    if k < outcomes.len() - 1 {
                        assert(outcomes.drop_last()[k] == outcomes[k]);
                    } else {
                        assert(outcomes[k] is NotFound);
                        assert forall|i: int| 0 <= i < s.len() implies (#[trigger] s[i]).height
                            != start + k by {
                            assert(s[i].height < start + outcomes.len() - 1);
                        }
                    }
                }
            },
            Some(r) => {
                assert(s == p.push(r));
                assert(r.height == start + outcomes.len() - 1);
                match outcomes.last() {
                    HeightOutcome::NotFound => {},
                    HeightOutcome::UndoUnavailable => {},
                    HeightOutcome::Undo(u) => {
                        assert(outcome_fits(outcomes[outcomes.len() - 1]));
                        lemma_block_result_wf(h, u.deep_view());
                    },
                }
                assert forall|i: int| 0 <= i < s.len() implies spec_height_result(
                    #[trigger] s[i].height,
                    outcomes[s[i].height - start],
                ) == Some(s[i]) by {
                    if i < p.len() {
                        assert(s[i] == p[i]);
                        assert(outcomes.drop_last()[s[i].height - start] == outcomes[s[i].height
                            - start]);
                    } else {
                        assert(s[i] == r);
                        assert(outcomes[s[i].height - start] == outcomes.last());
                    }
                }
                assert forall|k: int| 0 <= k < outcomes.len() implies (!(#[trigger] outcomes[k]
                    is NotFound) <==> exists|i: int|
                    0 <= i < s.len() && (#[trigger] s[i]).height == start + k) by {
                    if k < outcomes.len() - 1 {
                        assert(outcomes.drop_last()[k] == outcomes[k]);
                        if !(outcomes[k] is NotFound) {
                            let i = choose|i: int|
                                0 <= i < p.len() && (#[trigger] p[i]).height == start + k;
                            assert(s[i].height == start + k);
                        } else {
                            assert forall|i: int| 0 <= i < s.len() implies (#[trigger] s[i]).height
                                != start + k by {
                                if i < p.len() {
                                    assert(s[i] == p[i]);
                                } else {
                                    assert(s[i].height == start + outcomes.len() - 1);
                                }
                            }
                        }
                    } else {
                        assert(!(outcomes[k] is NotFound));
                        assert(s[s.len() - 1].height == start + k);
                    }
                }
            },
        }
    }
}

/// Scan a closed height range, given the outcome the chain database reported
/// for each height in it: `outcomes[k]` belongs to height `start + k`, and
/// the range is empty whenever `start > end`. Results come back in strictly
/// ascending height order, one per height whose block index was found.
pub fn scan_results(start: i32, end: i32, outcomes: &Vec<HeightOutcome>) -> (r: Vec<BlockResult>)
    requires
        start <= end ==> outcomes@.len() == end - start + 1,
        start > end ==> outcomes@.len() == 0,
        forall|k: int| 0 <= k < outcomes@.len() ==> outcome_fits(#[trigger] outcomes@[k]),
    ensures
        r@ == spec_scan(start as int, outcomes@),
        forall|i: int, j: int|
            0 <= i < j < r@.len() ==> #[trigger] r@[i].height < #[trigger] r@[j].height,
        forall|i: int| 0 <= i < r@.len() ==> start <= #[trigger] r@[i].height <= end,
        forall|i: int|
            0 <= i < r@.len() ==> spec_height_result(
                #[trigger] r@[i].height,
                outcomes@[r@[i].height - start],
            ) == Some(r@[i]),
        forall|i: int| 0 <= i < r@.len() ==> result_wf(#[trigger] r@[i]),
        forall|k: int|
            0 <= k < outcomes@.len() ==> (!(#[trigger] outcomes@[k] is NotFound) <==> exists|i: int|
                0 <= i < r@.len() && (#[trigger] r@[i]).height == start + k),
{
    let mut results: Vec<BlockResult> = Vec::new();
    let mut k: usize = 0;
    while k < outcomes.len()
        invariant
            k <= outcomes@.len(),
            start <= end ==> outcomes@.len() == end - start + 1,
            start > end ==> outcomes@.len() == 0,
            forall|j: int| 0 <= j < outcomes@.len() ==> outcome_fits(#[trigger] outcomes@[j]),
            results@ == spec_scan(start as int, outcomes@.take(k as int)),
        decreases outcomes@.len() - k,
    {
        proof {
            assert(outcomes@.take(k + 1).drop_last() =~= outcomes@.take(k as int));
        }
        let height: i32 = ((start as i64) + (k as i64)) as i32;
        match result_for_height(height, &outcomes[k]) {
            None => {},
            Some(r) => {
                results.push(r);
            },
        }
        k = k + 1;
    }
    proof {
        assert(outcomes@.take(outcomes@.len() as int) =~= outcomes@);
        lemma_scan_props(start as int, outcomes@);
    }
    results
}

} // verus!
