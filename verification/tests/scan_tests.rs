use block_stats::is_p2tr;
use block_stats::block_result_from_undo;
use block_stats::outcome_counts_fit;
use block_stats::result_for_height;
use block_stats::scan_results;
use block_stats::undo_counts_fit;
use block_stats::BlockResult;
use block_stats::HeightOutcome;

fn taproot_script() -> Vec<u8> {
    let mut s = vec![0x51u8, 0x20u8];
    s.extend(std::iter::repeat(0xabu8).take(32));
    s
}

fn non_taproot_script() -> Vec<u8> {
    // A P2PKH-shaped script: wrong length and wrong leading bytes.
    let mut s = vec![0x76u8, 0xa9u8, 0x14u8];
    s.extend(std::iter::repeat(0x11u8).take(20));
    s.push(0x88u8);
    s.push(0xacu8);
    s
}

#[test]
fn p2tr_accepts_the_exact_pattern() {
    assert!(is_p2tr(&taproot_script()));
}

#[test]
fn p2tr_rejects_wrong_lengths() {
    let mut short = taproot_script();
    short.pop();
    assert!(!is_p2tr(&short));
    let mut long = taproot_script();
    long.push(0x00);
    assert!(!is_p2tr(&long));
    assert!(!is_p2tr(&Vec::new()));
    assert!(!is_p2tr(&vec![0x51u8]));
}

#[test]
fn p2tr_rejects_wrong_prefixes() {
    // Any other 2-byte prefix on a 34-byte script must be rejected.
    for b0 in [0x00u8, 0x20, 0x50, 0x52, 0x76, 0xff] {
        for b1 in [0x00u8, 0x19, 0x21, 0x51, 0xff] {
            let mut s = vec![b0, b1];
            s.extend(std::iter::repeat(0xabu8).take(32));
            assert!(!is_p2tr(&s));
        }
    }
    // The right prefix in the wrong order.
    let mut swapped = vec![0x20u8, 0x51u8];
    swapped.extend(std::iter::repeat(0xabu8).take(32));
    assert!(!is_p2tr(&swapped));
}

#[test]
fn p2tr_checks_only_the_two_leading_bytes() {
    // The 32 bytes after the push opcode are not inspected.
    let mut s = vec![0x51u8, 0x20u8];
    s.extend((0u8..32).map(|i| i.wrapping_mul(7)));
    assert!(is_p2tr(&s));
}

#[test]
fn block_result_concrete_scenario() {
    // Height 100: one mixed transaction and one with only non-Taproot inputs.
    let tx_mixed = vec![taproot_script(), non_taproot_script()];
    let tx_plain = vec![non_taproot_script(), non_taproot_script()];
    let undo = vec![tx_mixed, tx_plain];
    assert!(undo_counts_fit(&undo));
    let r = block_result_from_undo(100, &undo);
    let expected = BlockResult {
        height: 100,
        total_txs: 2,
        total_inputs: 4,
        mixed_tx_count: 1,
        schnorr_sigs: 1,
        non_schnorr_sigs: 3,
    };
    assert_eq!(r, expected);
}

#[test]
fn block_result_counts_partition_inputs() {
    let undos = vec![
        Vec::new(),
        vec![vec![taproot_script()]],
        vec![vec![non_taproot_script()]],
        vec![
            vec![taproot_script(), taproot_script(), non_taproot_script()],
            Vec::new(),
            vec![non_taproot_script()],
        ],
    ];
    for (i, undo) in undos.iter().enumerate() {
        let r = block_result_from_undo(i as i32, undo);
        assert_eq!(r.schnorr_sigs + r.non_schnorr_sigs, r.total_inputs);
        assert!(r.mixed_tx_count <= r.total_txs);
    }
}

#[test]
fn all_taproot_transaction_is_not_mixed() {
    let undo = vec![vec![taproot_script(), taproot_script()]];
    let r = block_result_from_undo(7, &undo);
    assert_eq!(r.mixed_tx_count, 0);
    assert_eq!(r.schnorr_sigs, 2);
    assert_eq!(r.non_schnorr_sigs, 0);
}

#[test]
fn empty_block_yields_zero_counts() {
    let undo: Vec<Vec<Vec<u8>>> = Vec::new();
    let r = block_result_from_undo(42, &undo);
    assert_eq!(
        r,
        BlockResult {
            height: 42,
            total_txs: 0,
            total_inputs: 0,
            mixed_tx_count: 0,
            schnorr_sigs: 0,
            non_schnorr_sigs: 0,
        }
    );
}

#[test]
fn result_for_height_skips_missing_block_index() {
    assert_eq!(result_for_height(5, &HeightOutcome::NotFound), None);
}

#[test]
fn result_for_height_zero_fills_missing_undo_data() {
    let r = result_for_height(9, &HeightOutcome::UndoUnavailable).unwrap();
    assert_eq!(
        r,
        BlockResult {
            height: 9,
            total_txs: 0,
            total_inputs: 0,
            mixed_tx_count: 0,
            schnorr_sigs: 0,
            non_schnorr_sigs: 0,
        }
    );
}

#[test]
fn scan_reports_every_height_around_a_lookup_failure() {
    // Heights 100..=110 with the block index missing at 105: all the other
    // heights must still be reported, in ascending order.
    let mut outcomes: Vec<HeightOutcome> = Vec::new();
    for h in 100..=110i32 {
        if h == 105 {
            outcomes.push(HeightOutcome::NotFound);
        } else {
            outcomes.push(HeightOutcome::Undo(vec![vec![taproot_script()]]));
        }
    }
    let results = scan_results(100, 110, &outcomes);
    let heights: Vec<i32> = results.iter().map(|r| r.height).collect();
    assert_eq!(heights, vec![100, 101, 102, 103, 104, 106, 107, 108, 109, 110]);
    for r in &results {
        assert_eq!(r.total_txs, 1);
        assert_eq!(r.schnorr_sigs, 1);
    }
}

#[test]
fn scan_orders_results_strictly_by_height() {
    let mut outcomes: Vec<HeightOutcome> = Vec::new();
    for h in 0..50i32 {
        if h % 7 == 3 {
            outcomes.push(HeightOutcome::NotFound);
        } else if h % 5 == 0 {
            outcomes.push(HeightOutcome::UndoUnavailable);
        } else {
            outcomes.push(HeightOutcome::Undo(vec![vec![non_taproot_script()]]));
        }
    }
    let results = scan_results(0, 49, &outcomes);
    for w in results.windows(2) {
        assert!(w[0].height < w[1].height);
    }
    for r in &results {
        assert!((0..50).contains(&r.height));
        assert_ne!(r.height % 7, 3);
    }
}

#[test]
fn empty_range_yields_no_results() {
    let outcomes: Vec<HeightOutcome> = Vec::new();
    let results = scan_results(10, 9, &outcomes);
    assert!(results.is_empty());
}

#[test]
fn outcome_fit_checks() {
    assert!(outcome_counts_fit(&HeightOutcome::NotFound));
    assert!(outcome_counts_fit(&HeightOutcome::UndoUnavailable));
    assert!(outcome_counts_fit(&HeightOutcome::Undo(vec![vec![
        taproot_script()
    ]])));
    let empty: Vec<Vec<Vec<u8>>> = Vec::new();
    assert!(undo_counts_fit(&empty));
}
