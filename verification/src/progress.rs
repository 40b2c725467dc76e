use vstd::prelude::*;

use vstd::arithmetic::div_mod::{
    lemma_div_is_ordered, lemma_div_multiples_vanish, lemma_div_pos_is_pos,
    lemma_multiply_divide_lt,
};

verus! {

/// Truncating completion percentage: `100 * bytes_written / total_size`.
/// The division truncates rather than rounds, so progress under-reports
/// and reads 100 exactly when the download is complete.
pub fn progress_percent(bytes_written: u64, total_size: u64) -> (percent: u64)
    requires
        total_size > 0,
        bytes_written <= total_size,
    ensures
        percent == 100 * (bytes_written as int) / (total_size as int),
        percent <= 100,
        percent == 100 <==> bytes_written == total_size,
{
    let wide: u128 = 100u128 * (bytes_written as u128) / (total_size as u128);
    proof {
        let b = bytes_written as int;
        let t = total_size as int;
        lemma_div_pos_is_pos(100 * b, t);
        lemma_div_is_ordered(100 * b, 100 * t, t);
        lemma_div_multiples_vanish(100, t);
        assert(100 * t == t * 100);
        if b < t {
            lemma_multiply_divide_lt(100 * b, t, 100);
        }
    }
    wide as u64
}

/// Number of filled cells in a 50-cell progress bar, truncating like the
/// percentage.
pub fn progress_bar_cells(bytes_written: u64, total_size: u64) -> (cells: u64)
    requires
        total_size > 0,
        bytes_written <= total_size,
    ensures
        cells == 50 * (bytes_written as int) / (total_size as int),
        cells <= 50,
        bytes_written == total_size ==> cells == 50,
{
    let wide: u128 = 50u128 * (bytes_written as u128) / (total_size as u128);
    proof {
        let b = bytes_written as int;
        let t = total_size as int;
        lemma_div_pos_is_pos(50 * b, t);
        lemma_div_is_ordered(50 * b, 50 * t, t);
        lemma_div_multiples_vanish(50, t);
        assert(50 * t == t * 50);
    }
    wide as u64
}

} // verus!
