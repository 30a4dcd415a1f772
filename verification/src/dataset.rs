//! The integer side of the Poisson regression example: the covariates of the
//! generated dataset, the columns that explain the response, and the bit
//! pattern that turns 64 random bits into a number in `[1, 2)`.

use vstd::prelude::*;

verus! {

/// The file that holds the generated dataset.
pub const CSV_FILE: &'static str = "dataset.csv";

/// The number of rows of the generated dataset.
pub const DATASET_ROWS: u32 = 30;

/// The covariates of the generated dataset: rows `(i, i / 13)` for `i` from
/// 1 to 30.
pub fn dataset_covariates() -> (rows: Vec<(u32, u32)>)
    ensures
        rows@.len() == DATASET_ROWS,
        forall|k: int| 0 <= k < rows@.len() ==> #[trigger] rows@[k] == ((k + 1) as u32, ((k + 1) / 13) as u32),
{
    let mut rows: Vec<(u32, u32)> = Vec::new();
    let mut i: u32 = 1;
    while i <= DATASET_ROWS
        invariant
            1 <= i <= DATASET_ROWS + 1,
            rows@.len() == i - 1,
            forall|k: int| 0 <= k < rows@.len() ==> #[trigger] rows@[k] == ((k + 1) as u32, ((k + 1) / 13) as u32),
        decreases DATASET_ROWS + 1 - i,
    {
        rows.push((i, i / 13));
        i += 1;
    }
    rows
}

/// The indices of the columns other than `target`, in order: the columns
/// that explain the response in column `target`.
pub fn explanatory_columns(ncols: usize, target: usize) -> (cols: Vec<usize>)
    ensures
        target < ncols ==> cols@.len() == ncols - 1,
        target >= ncols ==> cols@.len() == ncols,
        forall|k: int| 0 <= k < cols@.len() ==> #[trigger] cols@[k] == (if k < target { k } else { k + 1 }),
{
    let mut cols: Vec<usize> = Vec::new();
    let mut c: usize = 0;
    while c < ncols
        invariant
            c <= ncols,
            cols@.len() == if c <= target { c as int } else { c - 1 },
            forall|k: int| 0 <= k < cols@.len() ==> #[trigger] cols@[k] == (if k < target { k } else { k + 1 }),
        decreases ncols - c,
    {
        if c != target {
            cols.push(c);
        }
        c += 1;
    }
    cols
}

/// The bit pattern of a double in `[1, 2)` whose mantissa is the top 52 of
/// the 64 random bits `rn`: sign 0, exponent `0x3ff`.
pub fn unit_interval_bits(rn: u64) -> (bits: u64)
    ensures
        bits == 0x3ff0_0000_0000_0000u64 | (rn >> 12u64),
        bits >> 52u64 == 0x3ffu64,
        bits & 0x000f_ffff_ffff_ffffu64 == rn >> 12u64,
{
    let bits = 0x3ff0_0000_0000_0000u64 | (rn >> 12u64);
    assert(bits >> 52u64 == 0x3ffu64 && bits & 0x000f_ffff_ffff_ffffu64 == rn >> 12u64) by (bit_vector)
        requires
            bits == 0x3ff0_0000_0000_0000u64 | (rn >> 12u64),
    ;
    bits
}

} // verus!
