//! Rendering scan results as a CSV document.
//!
//! The document is one header line and one line per block result, each field
//! an integer in decimal notation, fields separated by commas and every line
//! terminated by a newline.

use vstd::prelude::*;

use crate::scan::BlockResult;
use crate::scan::HeightOutcome;
use crate::scan::spec_scan;

verus! {

/// Scanning an unchanged chain twice yields a byte-identical document: the
/// scan and the report are functions of the start height and the per-height
/// outcomes alone, so equal outcomes give equal CSV output.
pub proof fn lemma_scan_report_deterministic(
    start: int,
    outcomes1: Seq<HeightOutcome>,
    outcomes2: Seq<HeightOutcome>,
)
    requires
        outcomes1 == outcomes2,
    ensures
        spec_csv(spec_scan(start, outcomes1)) == spec_csv(spec_scan(start, outcomes2)),
{
}

/// The decimal digit characters.
pub open spec fn digit_char(d: int) -> char {
    if d == 0 {
        '0'
    } else if d == 1 {
        '1'
    } else if d == 2 {
        '2'
    } else if d == 3 {
        '3'
    } else if d == 4 {
        '4'
    } else if d == 5 {
        '5'
    } else if d == 6 {
        '6'
    } else if d == 7 {
        '7'
    } else if d == 8 {
        '8'
    } else {
        '9'
    }
}

/// The decimal notation of a non-negative integer, most significant digit
/// first, without leading zeroes (except for zero itself).
pub open spec fn spec_dec(n: int) -> Seq<char>
    decreases n,
{
    if n < 10 {
        seq![digit_char(n)]
    } else {
        spec_dec(n / 10).push(digit_char(n % 10))
    }
}

/// The decimal notation of any integer: a minus sign before the magnitude
/// when negative.
pub open spec fn spec_dec_signed(n: int) -> Seq<char> {
    if n < 0 {
        "-"@ + spec_dec(-n)
    } else {
        spec_dec(n)
    }
}

fn digit_str(d: u64) -> (s: &'static str)
    requires
        d < 10,
    ensures
        s@ == seq![digit_char(d as int)],
{
    let s: &'static str = if d == 0 {
        "0"
    } else if d == 1 {
        "1"
    } else if d == 2 {
        "2"
    } else if d == 3 {
        "3"
    } else if d == 4 {
        "4"
    } else if d == 5 {
        "5"
    } else if d == 6 {
        "6"
    } else if d == 7 {
        "7"
    } else if d == 8 {
        "8"
    } else {
        "9"
    };
    proof {
        reveal_strlit("0");
        reveal_strlit("1");
        reveal_strlit("2");
        reveal_strlit("3");
        reveal_strlit("4");
        reveal_strlit("5");
        reveal_strlit("6");
        reveal_strlit("7");
        reveal_strlit("8");
        reveal_strlit("9");
        assert(s@ =~= seq![digit_char(d as int)]);
    }
    s
}

/// Render a non-negative integer in decimal.
pub fn u64_to_dec(n: u64) -> (s: String)
    ensures
        s@ == spec_dec(n as int),
    decreases n,
{
    if n < 10 {
        let mut s = String::new();
        s.append(digit_str(n));
        proof {
            assert(s@ =~= spec_dec(n as int));
        }
        s
    } else {
        let mut s = u64_to_dec(n / 10);
        s.append(digit_str(n % 10));
        proof {
            assert(s@ =~= spec_dec(n as int));
        }
        s
    }
}

/// Render a signed integer in decimal.
pub fn i32_to_dec(n: i32) -> (s: String)
    ensures
        s@ == spec_dec_signed(n as int),
{
    if n < 0 {
        let mag: u64 = (-(n as i64)) as u64;
        let mut s = String::new();
        s.append("-");
        let digits = u64_to_dec(mag);
        s.append(digits.as_str());
        proof {
            assert(s@ =~= spec_dec_signed(n as int));
        }
        s
    } else {
        u64_to_dec(n as u64)
    }
}

/// The header line of the CSV document.
pub open spec fn spec_csv_header() -> Seq<char> {
    "height,total_txs,total_inputs,mixed_tx_count,schnorr_sigs,non_schnorr_sigs\n"@
}

/// One CSV line: the six counters of a block result, comma-separated.
pub open spec fn spec_csv_line(r: BlockResult) -> Seq<char> {
    spec_dec_signed(r.height as int) + ","@ + spec_dec(r.total_txs as int) + ","@ + spec_dec(
        r.total_inputs as int,
    ) + ","@ + spec_dec(r.mixed_tx_count as int) + ","@ + spec_dec(r.schnorr_sigs as int) + ","@
        + spec_dec(r.non_schnorr_sigs as int) + "\n"@
}

/// The whole CSV document: the header, then one line per result in order.
pub open spec fn spec_csv(results: Seq<BlockResult>) -> Seq<char>
    decreases results.len(),
{
    if results.len() == 0 {
        spec_csv_header()
    } else {
        spec_csv(results.drop_last()) + spec_csv_line(results.last())
    }
}

/// Render one result as its CSV line.
pub fn csv_line(r: &BlockResult) -> (s: String)
    ensures
        s@ == spec_csv_line(*r),
{
    let mut s = i32_to_dec(r.height);
    s.append(",");
    let f1 = u64_to_dec(r.total_txs as u64);
    s.append(f1.as_str());
    s.append(",");
    let f2 = u64_to_dec(r.total_inputs as u64);
    s.append(f2.as_str());
    s.append(",");
    let f3 = u64_to_dec(r.mixed_tx_count as u64);
    s.append(f3.as_str());
    s.append(",");
    let f4 = u64_to_dec(r.schnorr_sigs as u64);
    s.append(f4.as_str());
    s.append(",");
    let f5 = u64_to_dec(r.non_schnorr_sigs as u64);
    s.append(f5.as_str());
    s.append("\n");
    proof {
        assert(s@ =~= spec_csv_line(*r));
    }
    s
}

/// Render a whole scan's results as the CSV document.
pub fn results_to_csv(results: &Vec<BlockResult>) -> (s: String)
    ensures
        s@ == spec_csv(results@),
{
    let mut s = String::new();
    s.append("height,total_txs,total_inputs,mixed_tx_count,schnorr_sigs,non_schnorr_sigs\n");
    proof {
        assert(s@ =~= spec_csv_header());
    }
    let mut i: usize = 0;
    while i < results.len()
        invariant
            i <= results@.len(),
            s@ == spec_csv(results@.take(i as int)),
        decreases results@.len() - i,
    {
        proof {
            assert(results@.take(i + 1).drop_last() =~= results@.take(i as int));
        }
        let line = csv_line(&results[i]);
        s.append(line.as_str());
        i = i + 1;
    }
    proof {
        assert(results@.take(results@.len() as int) =~= results@);
    }
    s
}

} // verus!
