//! The curve model: a tone-response curve is either sampled or given in
//! closed form by a few coefficients.

use vstd::prelude::*;

verus! {

/// A tone-response curve.
#[derive(Clone, Debug, PartialEq, Eq)]
pub enum Curve {
    /// A closed form of 1, 3, 4, 5 or 7 coefficients `g, a, b, c, d, e, f`.
    /// Each coefficient is kept as the bit pattern of a single-precision
    /// number and is never interpreted here.
    Parametric(Vec<u32>),
    /// Samples of the curve at evenly spaced inputs over `[0, 1]`, as 16-bit
    /// fractions. No sample is the identity; a single sample is a power
    /// curve whose exponent it holds in 8.8 fixed point; two or more are a
    /// table, taken to rise monotonically wherever it is inverted.
    Sampled(Vec<u16>),
}

/// Why a curve was turned down.
#[derive(Clone, Copy, Debug, PartialEq, Eq, Structural)]
pub enum CurveError {
    /// A closed form with a number of coefficients other than 1, 3, 4, 5 or 7.
    InvalidParametric,
}

/// What kind of curve a `Curve` is, which decides how it is evaluated.
#[derive(Clone, Copy, Debug, PartialEq, Eq, Structural)]
pub enum Shape {
    /// No samples: the identity.
    Identity,
    /// One sample: the power curve `x^(gamma / 256)`.
    Power { gamma: u16 },
    /// Two or more samples: a table to interpolate in.
    Table,
    /// A closed form with a valid number of coefficients.
    Parametric,
}

/// Where one coefficient of the unified closed form comes from.
#[derive(Clone, Copy, Debug, PartialEq, Eq, Structural)]
pub enum Term {
    /// The coefficient given at this index.
    Given(usize),
    /// The constant 0.
    Zero,
    /// The constant 1.
    One,
    /// `-b / a`, the input at which `a * x + b` is 0.
    Root,
}

/// The unified closed form
///
/// ```text
/// y = c * x + f            for x < d
/// y = (a * x + b)^g + e    otherwise
/// ```
///
/// as a rule for filling its seven coefficients from the ones a curve gives.
#[derive(Clone, Copy, Debug, PartialEq, Eq, Structural)]
pub struct Param {
    pub g: Term,
    pub a: Term,
    pub b: Term,
    pub c: Term,
    pub d: Term,
    pub e: Term,
    pub f: Term,
}

/// Whether a closed form may have `count` coefficients.
pub open spec fn valid_coefficient_count(count: int) -> bool {
    count == 1 || count == 3 || count == 4 || count == 5 || count == 7
}

/// Whether `term` can be read off `count` given coefficients.
pub open spec fn term_within(term: Term, count: int) -> bool {
    match term {
        Term::Given(i) => i < count,
        Term::Root => count >= 3,
        _ => true,
    }
}

impl Curve {
    /// The kind of this curve, or why it is none.
    pub open spec fn shape_of(self) -> Result<Shape, CurveError> {
        match self {
            Curve::Parametric(coefficients) => if valid_coefficient_count(
                coefficients@.len() as int,
            ) {
                Ok(Shape::Parametric)
            } else {
                Err(CurveError::InvalidParametric)
            },
            Curve::Sampled(data) => if data@.len() == 0 {
                Ok(Shape::Identity)
            } else if data@.len() == 1 {
                Ok(Shape::Power { gamma: data@[0] })
            } else {
                Ok(Shape::Table)
            },
        }
    }

    /// Tells what kind of curve this is; a closed form with a number of
    /// coefficients that no closed form has is turned down.
    pub fn shape(&self) -> (shape: Result<Shape, CurveError>)
        ensures
            shape == self.shape_of(),
    {
        match self {
            Curve::Parametric(coefficients) => match Param::new(coefficients.len()) {
                Ok(_) => Ok(Shape::Parametric),
                Err(e) => Err(e),
            },
            Curve::Sampled(data) => if data.len() == 0 {
                Ok(Shape::Identity)
            } else if data.len() == 1 {
                Ok(Shape::Power { gamma: data[0] })
            } else {
                Ok(Shape::Table)
            },
        }
    }
}

impl Param {
    /// The rule for a valid number of coefficients:
    ///
    /// | given           | rule                                   |
    /// |-----------------|----------------------------------------|
    /// | `g`             | `a = 1`, the rest 0 but `c = 1`        |
    /// | `g a b`         | `d = -b/a`, `c = e = f = 0`            |
    /// | `g a b c`       | `d = -b/a`, `e = f =` the given `c`, `c = 0` |
    /// | `g a b c d`     | `e = f = 0`                            |
    /// | `g a b c d e f` | as given                               |
    pub open spec fn rule(count: int) -> Param {
        if count == 1 {
            Param {
                g: Term::Given(0),
                a: Term::One,
                b: Term::Zero,
                c: Term::One,
                d: Term::Zero,
                e: Term::Zero,
                f: Term::Zero,
            }
        } else if count == 3 {
            Param {
                g: Term::Given(0),
                a: Term::Given(1),
                b: Term::Given(2),
                c: Term::Zero,
                d: Term::Root,
                e: Term::Zero,
                f: Term::Zero,
            }
        } else if count == 4 {
            Param {
                g: Term::Given(0),
                a: Term::Given(1),
                b: Term::Given(2),
                c: Term::Zero,
                d: Term::Root,
                e: Term::Given(3),
                f: Term::Given(3),
            }
        } else if count == 5 {
            Param {
                g: Term::Given(0),
                a: Term::Given(1),
                b: Term::Given(2),
                c: Term::Given(3),
                d: Term::Given(4),
                e: Term::Zero,
                f: Term::Zero,
            }
        } else {
            Param {
                g: Term::Given(0),
                a: Term::Given(1),
                b: Term::Given(2),
                c: Term::Given(3),
                d: Term::Given(4),
                e: Term::Given(5),
                f: Term::Given(6),
            }
        }
    }

    /// Whether every term can be read off `count` given coefficients.
    pub open spec fn within(self, count: int) -> bool {
        &&& term_within(self.g, count)
        &&& term_within(self.a, count)
        &&& term_within(self.b, count)
        &&& term_within(self.c, count)
        &&& term_within(self.d, count)
        &&& term_within(self.e, count)
        &&& term_within(self.f, count)
    }

    /// The unified form of a curve given by `count` coefficients, or
    /// `InvalidParametric` for a count that no closed form has.
    pub fn new(count: usize) -> (unified: Result<Param, CurveError>)
        ensures
            valid_coefficient_count(count as int) ==> unified == Ok::<Param, CurveError>(
                Param::rule(count as int),
            ),
            !valid_coefficient_count(count as int) ==> unified == Err::<Param, CurveError>(
                CurveError::InvalidParametric,
            ),
            unified matches Ok(p) ==> p.within(count as int),
    {
        let g = Term::Given(0);
        let a = Term::Given(1);
        let b = Term::Given(2);
        match count {
            1 => Ok(
                Param {
                    g,
                    a: Term::One,
                    b: Term::Zero,
                    c: Term::One,
                    d: Term::Zero,
                    e: Term::Zero,
                    f: Term::Zero,
                },
            ),
            3 => Ok(Param { g, a, b, c: Term::Zero, d: Term::Root, e: Term::Zero, f: Term::Zero }),
            4 => Ok(
                Param {
                    g,
                    a,
                    b,
                    c: Term::Zero,
                    d: Term::Root,
                    e: Term::Given(3),
                    f: Term::Given(3),
                },
            ),
            5 => Ok(
                Param {
                    g,
                    a,
                    b,
                    c: Term::Given(3),
                    d: Term::Given(4),
                    e: Term::Zero,
                    f: Term::Zero,
                },
            ),
            7 => Ok(
                Param {
                    g,
                    a,
                    b,
                    c: Term::Given(3),
                    d: Term::Given(4),
                    e: Term::Given(5),
                    f: Term::Given(6),
                },
            ),
            _ => Err(CurveError::InvalidParametric),
        }
    }
}

} // verus!
