//! 16-bit fractions: a value in `[0, 1]` held as a `u16` out of 65535.

use vstd::prelude::*;

verus! {

/// `numer / denom` rounded to the nearest integer, halves upwards, and held
/// within `[0, 65535]`.
pub open spec fn round_to_fract(numer: int, denom: int) -> int
    recommends
        denom > 0,
{
    if numer < 0 {
        0
    } else if numer >= 65535 * denom {
        65535
    } else {
        (2 * numer + denom) / (2 * denom)
    }
}

/// The fraction `index / (len - 1)`: entry `index` of `len` fractions spread
/// evenly from 0 to 65535. A single entry is 0.
pub open spec fn linear_entry(index: int, len: int) -> int {
    if len <= 1 {
        0
    } else {
        round_to_fract(index * 65535, len - 1)
    }
}

/// A rounded fraction is a 16-bit fraction.
pub proof fn lemma_round_to_fract_range(numer: int, denom: int)
    requires
        denom > 0,
    ensures
        0 <= round_to_fract(numer, denom) <= 65535,
{
    if 0 <= numer < 65535 * denom {
        assert(0 <= (2 * numer + denom) / (2 * denom) <= 65535) by (nonlinear_arith)
            requires
                0 <= numer < 65535 * denom,
                0 < denom,
        ;
    }
}

/// The evenly spread fractions start at 0, end at 65535 and never fall.
pub proof fn lemma_linear_entry_monotonic(i: int, j: int, len: int)
    requires
        0 <= i <= j < len,
    ensures
        0 <= linear_entry(i, len) <= linear_entry(j, len) <= 65535,
        len >= 2 ==> linear_entry(0, len) == 0 && linear_entry(len - 1, len) == 65535,
{
    if len >= 2 {
        let d = len - 1;
        lemma_round_to_fract_range(i * 65535, d);
        lemma_round_to_fract_range(j * 65535, d);
        assert(0 <= i * 65535 <= j * 65535);
        assert((len - 1) * 65535 == 65535 * d) by (nonlinear_arith)
            requires
                d == len - 1,
        ;
        assert((2 * (0 * 65535) + d) / (2 * d) == 0) by (nonlinear_arith)
            requires
                d > 0,
        ;
        if j * 65535 < 65535 * d {
            assert((2 * (i * 65535) + d) / (2 * d) <= (2 * (j * 65535) + d) / (2 * d))
                by (nonlinear_arith)
                requires
                    0 <= i <= j,
                    d > 0,
            ;
        }
    }
}

/// Rounds `numer / denom` to the nearest 16-bit fraction.
pub(crate) fn round_fract(numer: i64, denom: i64) -> (nearest: u16)
    requires
        0 < denom <= 65535 * 65535,
        -0x1_0000_0000_0000 < numer < 0x1_0000_0000_0000,
    ensures
        nearest == round_to_fract(numer as int, denom as int),
{
    if numer < 0 {
        0
    } else if numer >= 65535 * denom {
        65535
    } else {
        let n: u64 = numer as u64;
        let d: u64 = denom as u64;
        assert((2 * n + d) / (2 * d) <= 65535) by (nonlinear_arith)
            requires
                0 <= n < 65535 * d,
                0 < d,
        ;
        ((2 * n + d) / (2 * d)) as u16
    }
}

/// Entry `index` of `len` fractions spread evenly from 0 to 65535.
pub(crate) fn linear_fract(index: usize, len: usize) -> (entry: u16)
    requires
        index < len,
    ensures
        entry == linear_entry(index as int, len as int),
{
    if len <= 1 {
        0
    } else if index == len - 1 {
        assert(index * 65535 == 65535 * (len - 1)) by (nonlinear_arith)
            requires
                index == len - 1,
        ;
        65535
    } else {
        let d: u128 = (len - 1) as u128;
        let n: u128 = index as u128 * 65535;
        assert(n < 65535 * d) by (nonlinear_arith)
            requires
                n == index * 65535,
                index < d,
        ;
        assert((2 * n + d) / (2 * d) <= 65535) by (nonlinear_arith)
            requires
                0 <= n < 65535 * d,
                0 < d,
        ;
        ((2 * n + d) / (2 * d)) as u16
    }
}

} // verus!
