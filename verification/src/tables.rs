//! Lookup tables built from a curve, in either direction.

use vstd::prelude::*;
use crate::curve::{valid_coefficient_count, Curve, CurveError, Param};
use crate::fract::{linear_entry, linear_fract};
use crate::inverse::{invert_lut, inverted};

verus! {

/// Samples a closed form has by default.
pub const PARAMETRIC_LUT_LEN: usize = 256;

/// Samples generated by default for an identity or a power curve.
pub const AUTOGEN_LUT_LEN: usize = 4096;

/// The least number of samples an inverted table is given.
pub const MIN_INVERTED_LEN: usize = 256;

/// A lookup table, or what is left to evaluate to get one. The evaluations
/// left are those that take floating point.
#[derive(Clone, Debug, PartialEq, Eq)]
pub enum Lut {
    /// The finished table.
    Table(Vec<u16>),
    /// The table is `len` samples of the power curve `x^(gamma / 256)`, or of
    /// `x^(256 / gamma)` where `inverse` is set.
    Power { gamma: u16, inverse: bool, len: usize },
    /// The table is `len` samples of the closed form, or of its inverse where
    /// `inverse` is set; there is none if that inverse does not exist.
    Parametric { inverse: bool, len: usize },
}

/// A `Lut` with its table as a sequence.
pub enum LutView {
    Table(Seq<u16>),
    Power { gamma: u16, inverse: bool, len: usize },
    Parametric { inverse: bool, len: usize },
}

impl View for Lut {
    type V = LutView;

    open spec fn view(&self) -> LutView {
        match *self {
            Lut::Table(table) => LutView::Table(table@),
            Lut::Power { gamma, inverse, len } => LutView::Power { gamma, inverse, len },
            Lut::Parametric { inverse, len } => LutView::Parametric { inverse, len },
        }
    }
}

/// The identity as a table: `len` fractions spread evenly from 0 to 65535.
pub open spec fn linear_table(len: nat) -> Seq<u16> {
    Seq::new(len, |i: int| linear_entry(i, len as int) as u16)
}

/// `len` unless it is absent, then `default`.
pub open spec fn len_or(len: Option<usize>, default: usize) -> usize {
    match len {
        Some(n) => n,
        None => default,
    }
}

/// The length of the table that inverts a table of `len` samples.
pub open spec fn inverted_len(len: nat) -> nat {
    if len < MIN_INVERTED_LEN {
        MIN_INVERTED_LEN as nat
    } else {
        len
    }
}

/// The table that takes device values to linear light.
///
/// A sampled table is its own answer. The identity is generated at `lut_len`
/// or 4096 samples. A power curve and a closed form are left to be evaluated,
/// at `lut_len` or at 4096 and 256 samples.
pub open spec fn linear_from_tf(trc: Curve, lut_len: Option<usize>) -> Result<LutView, CurveError> {
    match trc {
        Curve::Parametric(coefficients) => if valid_coefficient_count(coefficients@.len() as int) {
            Ok(LutView::Parametric { inverse: false, len: len_or(lut_len, PARAMETRIC_LUT_LEN) })
        } else {
            Err(CurveError::InvalidParametric)
        },
        Curve::Sampled(data) => if data@.len() == 0 {
            Ok(LutView::Table(linear_table(len_or(lut_len, AUTOGEN_LUT_LEN) as nat)))
        } else if data@.len() == 1 {
            Ok(
                LutView::Power {
                    gamma: data@[0],
                    inverse: false,
                    len: len_or(lut_len, AUTOGEN_LUT_LEN),
                },
            )
        } else {
            Ok(LutView::Table(data@))
        },
    }
}

/// The table that takes linear light back to device values.
///
/// A sampled table of two or more samples is inverted into as many samples
/// as it has, and no fewer than 256. The identity is generated at 4096
/// samples. A power curve is left to be evaluated with the reciprocal
/// exponent at 4096 samples, a closed form to be inverted and evaluated at
/// 256.
pub open spec fn tf_from_linear(trc: Curve) -> Result<LutView, CurveError> {
    match trc {
        Curve::Parametric(coefficients) => if valid_coefficient_count(coefficients@.len() as int) {
            Ok(LutView::Parametric { inverse: true, len: PARAMETRIC_LUT_LEN })
        } else {
            Err(CurveError::InvalidParametric)
        },
        Curve::Sampled(data) => if data@.len() == 0 {
            Ok(LutView::Table(linear_table(AUTOGEN_LUT_LEN as nat)))
        } else if data@.len() == 1 {
            Ok(LutView::Power { gamma: data@[0], inverse: true, len: AUTOGEN_LUT_LEN })
        } else {
            Ok(LutView::Table(inverted(data@, inverted_len(data@.len()))))
        },
    }
}

/// Whether `lut` is the outcome `expected`, table for table.
pub open spec fn lut_is(lut: Result<Lut, CurveError>, expected: Result<LutView, CurveError>) -> bool {
    match lut {
        Ok(l) => expected == Ok::<LutView, CurveError>(l@),
        Err(e) => expected == Err::<LutView, CurveError>(e),
    }
}

/// Builds the identity as a table of `length` samples.
pub fn build_linear_table(length: usize) -> (output: Vec<u16>)
    ensures
        output@ == linear_table(length as nat),
{
    let mut output: Vec<u16> = Vec::with_capacity(length);
    let mut i: usize = 0;
    while i < length
        invariant
            i <= length,
            output@.len() == i,
            forall|k: int| 0 <= k < i ==> output@[k] == linear_entry(k, length as int),
        decreases length - i,
    {
        output.push(linear_fract(i, length));
        i += 1;
    }
    assert(output@ =~= linear_table(length as nat));
    output
}

/// Builds the table that takes device values to linear light, of `lut_len`
/// samples where that is given. With a sampled table of two or more samples a
/// `lut_len` that is given has to be the table's length.
pub fn build_lut_for_linear_from_tf(trc: &Curve, lut_len: Option<usize>) -> (lut: Result<
    Lut,
    CurveError,
>)
    requires
        trc matches Curve::Sampled(data) ==> data@.len() < 2 || lut_len is None || lut_len == Some(
            data.len(),
        ),
    ensures
        lut_is(lut, linear_from_tf(*trc, lut_len)),
{
    match trc {
        Curve::Parametric(coefficients) => {
            let len: usize = match lut_len {
                Some(n) => n,
                None => PARAMETRIC_LUT_LEN,
            };
            match Param::new(coefficients.len()) {
                Ok(_) => Ok(Lut::Parametric { inverse: false, len }),
                Err(e) => Err(e),
            }
        },
        Curve::Sampled(data) => {
            let autogen: usize = match lut_len {
                Some(n) => n,
                None => AUTOGEN_LUT_LEN,
            };
            if data.len() == 0 {
                Ok(Lut::Table(build_linear_table(autogen)))
            } else if data.len() == 1 {
                Ok(Lut::Power { gamma: data[0], inverse: false, len: autogen })
            } else {
                let table: Vec<u16> = data.clone();
                assert(table@ =~= data@);
                Ok(Lut::Table(table))
            }
        },
    }
}

/// Builds the table that takes linear light back to device values. A sampled
/// table holds at most 65536 samples.
pub fn build_lut_for_tf_from_linear(trc: &Curve) -> (lut: Result<Lut, CurveError>)
    requires
        trc matches Curve::Sampled(data) ==> data@.len() <= 65536,
    ensures
        lut_is(lut, tf_from_linear(*trc)),
{
    match trc {
        Curve::Parametric(coefficients) => {
            match Param::new(coefficients.len()) {
                Ok(_) => Ok(Lut::Parametric { inverse: true, len: PARAMETRIC_LUT_LEN }),
                Err(e) => Err(e),
            }
        },
        Curve::Sampled(data) => {
            if data.len() == 0 {
                Ok(Lut::Table(build_linear_table(AUTOGEN_LUT_LEN)))
            } else if data.len() == 1 {
                Ok(Lut::Power { gamma: data[0], inverse: true, len: AUTOGEN_LUT_LEN })
            } else {
                let len: usize = if data.len() < MIN_INVERTED_LEN {
                    MIN_INVERTED_LEN
                } else {
                    data.len()
                };
                Ok(Lut::Table(invert_lut(data.as_slice(), len)))
            }
        },
    }
}

/// Builds the table an output stage uses: from linear light back to device
/// values.
pub fn build_output_lut(trc: &Curve) -> (lut: Result<Lut, CurveError>)
    requires
        trc matches Curve::Sampled(data) ==> data@.len() <= 65536,
    ensures
        lut_is(lut, tf_from_linear(*trc)),
{
    build_lut_for_tf_from_linear(trc)
}

} // verus!
