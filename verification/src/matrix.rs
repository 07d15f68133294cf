//! The colorant matrix of a profile, in s15.16 fixed point.

use vstd::prelude::*;

verus! {

/// A colour in CIE XYZ, each component a signed 15.16 fixed-point number.
#[derive(Clone, Copy, Debug, PartialEq, Eq, Structural)]
pub struct XYZNumber {
    pub x: i32,
    pub y: i32,
    pub z: i32,
}

/// The part of a colour profile that the matrix is built from: its three
/// colorants.
#[derive(Clone, Copy, Debug, PartialEq, Eq, Structural)]
pub struct Profile {
    pub red_colorant: XYZNumber,
    pub green_colorant: XYZNumber,
    pub blue_colorant: XYZNumber,
}

/// A 3 by 3 matrix of signed 15.16 fixed-point numbers, `m[row][column]`.
#[derive(Clone, Copy, Debug, PartialEq, Eq)]
pub struct Matrix {
    pub m: [[i32; 3]; 3],
}

/// The component of `colour` that belongs in `row`: x, y, z from the top.
pub open spec fn component(colour: XYZNumber, row: int) -> i32 {
    if row == 0 {
        colour.x
    } else if row == 1 {
        colour.y
    } else {
        colour.z
    }
}

/// The colorant that belongs in `column`: red, green, blue from the left.
pub open spec fn colorant(p: Profile, column: int) -> XYZNumber {
    if column == 0 {
        p.red_colorant
    } else if column == 1 {
        p.green_colorant
    } else {
        p.blue_colorant
    }
}

/// Builds the matrix whose columns are the red, green and blue colorants of
/// `p` and whose rows are their x, y and z components.
pub fn build_colorant_matrix(p: &Profile) -> (result: Matrix)
    ensures
        forall|row: int, column: int|
            0 <= row < 3 && 0 <= column < 3 ==> #[trigger] result.m[row][column] == component(
                colorant(*p, column),
                row,
            ),
{
    Matrix {
        m: [
            [p.red_colorant.x, p.green_colorant.x, p.blue_colorant.x],
            [p.red_colorant.y, p.green_colorant.y, p.blue_colorant.y],
            [p.red_colorant.z, p.green_colorant.z, p.blue_colorant.z],
        ],
    }
}

} // verus!
