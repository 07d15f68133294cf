//! The quantised output table of the pixel fast path: for each of
//! `PRECACHE_OUTPUT_SIZE` linear-light levels, the 8-bit device value.

use vstd::prelude::*;
use crate::curve::{valid_coefficient_count, Curve, CurveError, Param};
use crate::inverse::{invert_lut, inverted};
use crate::tables::{inverted_len, MIN_INVERTED_LEN};
use crate::interp::{
    interp_precache,
    lut_interp_linear_precache_output,
    PRECACHE_OUTPUT_MAX,
    PRECACHE_OUTPUT_SIZE,
};

verus! {

/// The output table of the identity curve: 256 levels, each held by an equal
/// share of the entries.
pub open spec fn precache_linear() -> Seq<u8> {
    Seq::new(PRECACHE_OUTPUT_SIZE as nat, |v: int| (v / (PRECACHE_OUTPUT_SIZE as int / 256)) as u8)
}

/// The output table read off `table`, a sampled curve from linear light to
/// device values.
pub open spec fn precache_lut(table: Seq<u16>) -> Seq<u8> {
    Seq::new(PRECACHE_OUTPUT_SIZE as nat, |v: int| interp_precache(v, table) as u8)
}

/// Fills `output` from `table`: entry `v` is the curve sampled in `table` at
/// `v / PRECACHE_OUTPUT_MAX`, as an 8-bit value.
pub fn compute_precache_lut(output: &mut [u8; PRECACHE_OUTPUT_SIZE], table: &[u16])
    requires
        table@.len() >= 1,
    ensures
        final(output)@ == precache_lut(table@),
{
    let mut v: usize = 0;
    while v < PRECACHE_OUTPUT_SIZE
        invariant
            table@.len() >= 1,
            v <= PRECACHE_OUTPUT_SIZE,
            forall|k: int| 0 <= k < v ==> output@[k] == interp_precache(k, table@),
        decreases PRECACHE_OUTPUT_SIZE - v,
    {
        output[v] = lut_interp_linear_precache_output(v as u32, table);
        v += 1;
    }
    assert(output@ =~= precache_lut(table@));
}

/// Fills `output` for the identity curve: entry `v` is `v` scaled down to 8
/// bits.
pub fn compute_precache_linear(output: &mut [u8; PRECACHE_OUTPUT_SIZE])
    ensures
        final(output)@ == precache_linear(),
        forall|v: int, w: int|
            0 <= v <= w < PRECACHE_OUTPUT_SIZE ==> final(output)@[v] <= final(output)@[w],
{
    let mut v: usize = 0;
    while v < PRECACHE_OUTPUT_SIZE
        invariant
            v <= PRECACHE_OUTPUT_SIZE,
            forall|k: int| 0 <= k < v ==> output@[k] == k / (PRECACHE_OUTPUT_SIZE as int / 256),
        decreases PRECACHE_OUTPUT_SIZE - v,
    {
        output[v] = (v / (PRECACHE_OUTPUT_SIZE / 256)) as u8;
        v += 1;
    }
    assert(output@ =~= precache_linear());
}

/// What `compute_precache` did with a curve.
#[derive(Clone, Copy, Debug, PartialEq, Eq, Structural)]
pub enum Precache {
    /// The output table is filled.
    Filled,
    /// Nothing was written. The curve is the power curve `x^(gamma / 256)`:
    /// entry `v` is to be 255 times `v / PRECACHE_OUTPUT_MAX` to the power of
    /// `256 / gamma`.
    Power { gamma: u16 },
    /// Nothing was written. The curve is a closed form: it is to be sampled
    /// at 256 evenly spaced inputs and handed back as a sampled curve.
    Parametric,
}

/// What `compute_precache` answers for a curve.
pub open spec fn precache_outcome(trc: Curve) -> Result<Precache, CurveError> {
    match trc {
        Curve::Parametric(coefficients) => if valid_coefficient_count(coefficients@.len() as int) {
            Ok(Precache::Parametric)
        } else {
            Err(CurveError::InvalidParametric)
        },
        Curve::Sampled(data) => if data@.len() == 1 {
            Ok(Precache::Power { gamma: data@[0] })
        } else {
            Ok(Precache::Filled)
        },
    }
}

/// The output table of a curve, where `before` is the table as it was: that
/// of the identity for no samples; for two or more, the table read off the
/// curve inverted into as many samples as it has, and no fewer than 256;
/// unchanged for a single sample and for a closed form.
pub open spec fn precache_table(trc: Curve, before: Seq<u8>) -> Seq<u8> {
    match trc {
        Curve::Parametric(_) => before,
        Curve::Sampled(data) => if data@.len() == 0 {
            precache_linear()
        } else if data@.len() == 1 {
            before
        } else {
            precache_lut(inverted(data@, inverted_len(data@.len())))
        },
    }
}

/// Fills `output` with the quantised output table of `trc`, as far as that
/// takes no floating point, and says what it did. A sampled curve holds at
/// most 65536 samples.
pub fn compute_precache(trc: &Curve, output: &mut [u8; PRECACHE_OUTPUT_SIZE]) -> (outcome: Result<
    Precache,
    CurveError,
>)
    requires
        trc matches Curve::Sampled(data) ==> data@.len() <= 65536,
    ensures
        outcome == precache_outcome(*trc),
        final(output)@ == precache_table(*trc, old(output)@),
{
    match trc {
        Curve::Parametric(coefficients) => {
            match Param::new(coefficients.len()) {
                Ok(_) => Ok(Precache::Parametric),
                Err(e) => Err(e),
            }
        },
        Curve::Sampled(data) => {
            if data.len() == 0 {
                compute_precache_linear(output);
                Ok(Precache::Filled)
            } else if data.len() == 1 {
                Ok(Precache::Power { gamma: data[0] })
            } else {
                let len: usize = if data.len() < MIN_INVERTED_LEN {
                    MIN_INVERTED_LEN
                } else {
                    data.len()
                };
                let inverse: Vec<u16> = invert_lut(data.as_slice(), len);
                compute_precache_lut(output, inverse.as_slice());
                Ok(Precache::Filled)
            }
        },
    }
}

} // verus!
