//! Fixed-point tone-response curves.
//!
//! A tone-response curve maps a device channel value to linear light or back.
//! This crate holds the integer side of working with such curves: linear
//! interpolation over sampled tables, inversion of a sampled table by
//! bisection, and the builders that turn a curve into lookup tables and into
//! the quantised output table of a pixel fast path.
//!
//! Values in `[0, 1]` are carried as `u16` fractions of 65535. Nothing here
//! uses floating point; where a curve is given in closed form the builders say
//! what has to be evaluated and take the samples back as a table.

pub mod curve;
pub mod fract;
pub mod interp;
pub mod inverse;
pub mod matrix;
pub mod precache;
pub mod tables;
