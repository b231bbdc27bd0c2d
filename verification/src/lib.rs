//! Statistics over spent Taproot outputs in a range of blocks.
//!
//! The library classifies spent script public keys, aggregates per-block
//! counts from undo data, assembles the results of a height-range scan in
//! ascending height order, and renders them as a CSV document. Fetching the
//! undo data from a chain database is the host binary's job: the library
//! works on plain byte sequences that the host hands it.

mod classify;
mod kernel;
mod report;
mod scan;

pub use classify::is_p2tr;
pub use classify::spec_is_p2tr;
pub use kernel::MainLog;
pub use kernel::spec_clean_line;
pub use report::csv_line;
pub use report::lemma_scan_report_deterministic;
pub use report::i32_to_dec;
pub use report::results_to_csv;
pub use report::spec_csv;
pub use report::spec_csv_header;
pub use report::spec_csv_line;
pub use report::spec_dec;
pub use report::spec_dec_signed;
pub use report::u64_to_dec;
pub use scan::BlockResult;
pub use scan::HeightOutcome;
pub use scan::block_result_from_undo;
pub use scan::lemma_scan_props;
pub use scan::outcome_fits;
pub use scan::result_for_height;
pub use scan::scan_results;
pub use scan::spec_height_result;
pub use scan::spec_scan;
pub use scan::zero_result;
pub use scan::count_p2tr;
pub use scan::lemma_block_result_wf;
pub use scan::mixed_txs_of;
pub use scan::p2tr_inputs_of;
pub use scan::result_wf;
pub use scan::spec_block_result;
pub use scan::total_inputs_of;
pub use scan::tx_is_mixed;
pub use scan::undo_counts_fit;
pub use scan::outcome_counts_fit;
pub use scan::undo_fits;
