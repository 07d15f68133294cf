//! Linear interpolation over a sampled table, in integer arithmetic.

use vstd::prelude::*;

verus! {

/// Number of entries of a quantised output table.
pub const PRECACHE_OUTPUT_SIZE: usize = 8192;

/// The largest index into a quantised output table.
pub const PRECACHE_OUTPUT_MAX: usize = PRECACHE_OUTPUT_SIZE - 1;

/// Linear interpolation at `position / scale` cells into `table`, scaled by
/// `scale` and not yet divided: the sample at the cell that holds the position
/// and its right neighbour, weighted by the distance to each.
pub open spec fn blend(table: Seq<u16>, position: int, scale: int) -> int {
    let cell = position / scale;
    let weight = position % scale;
    if weight == 0 {
        table[cell] * scale
    } else {
        table[cell] * (scale - weight) + table[cell + 1] * weight
    }
}

/// The value of the curve sampled in `table` at the 16-bit fraction `input`,
/// rounded down to a 16-bit fraction.
pub open spec fn interp16(input: int, table: Seq<u16>) -> int {
    blend(table, input * (table.len() - 1), 65535) / 65535
}

/// What one of the 255 steps of an 8-bit value comes to in the undivided
/// interpolation over `PRECACHE_OUTPUT_MAX`.
pub const PRECACHE_STEP: u64 = PRECACHE_OUTPUT_MAX as u64 * 65535 / 255;

/// The value of the curve sampled in `table` at `input` steps out of
/// `PRECACHE_OUTPUT_MAX`, as an 8-bit value: the interpolation, rounded to
/// the nearest of the 255 steps.
pub open spec fn interp_precache(input: int, table: Seq<u16>) -> int {
    (blend(table, input * (table.len() - 1), PRECACHE_OUTPUT_MAX as int) + PRECACHE_STEP / 2)
        / PRECACHE_STEP as int
}

/// Where `input` falls when `[0, scale]` is stretched over a table of `len`
/// samples: inside the table, and on its last sample only without a remainder.
pub proof fn lemma_position_in_table(input: int, len: int, scale: int)
    requires
        0 <= input <= scale,
        1 <= len,
        0 < scale,
    ensures
        0 <= input * (len - 1),
        0 <= (input * (len - 1)) / scale <= len - 1,
        0 <= (input * (len - 1)) % scale < scale,
        (input * (len - 1)) % scale != 0 ==> (input * (len - 1)) / scale < len - 1,
{
    let p = input * (len - 1);
    assert(0 <= p <= scale * (len - 1)) by (nonlinear_arith)
        requires
            p == input * (len - 1),
            0 <= input <= scale,
            1 <= len,
    ;
    let q = p / scale;
    let w = p % scale;
    assert(p == scale * q + w && 0 <= w < scale) by (nonlinear_arith)
        requires
            q == p / scale,
            w == p % scale,
            0 < scale,
    ;
    assert(0 <= q && q <= len - 1 && (w != 0 ==> q < len - 1)) by (nonlinear_arith)
        requires
            p == scale * q + w,
            0 <= w < scale,
            0 <= p <= scale * (len - 1),
            0 < scale,
    ;
}

/// The undivided interpolation lies between 0 and the largest sample value
/// times the scale.
pub proof fn lemma_blend_bounds(table: Seq<u16>, position: int, scale: int)
    requires
        0 < scale,
        0 <= position / scale < table.len(),
        position % scale != 0 ==> position / scale + 1 < table.len(),
        0 <= position % scale < scale,
    ensures
        0 <= blend(table, position, scale) <= 65535 * scale,
{
    let cell = position / scale;
    let weight = position % scale;
    let a = table[cell] as int;
    if weight == 0 {
        assert(0 <= a * scale <= 65535 * scale) by (nonlinear_arith)
            requires
                0 <= a <= 65535,
                0 < scale,
        ;
    } else {
        let b = table[cell + 1] as int;
        assert(0 <= a * (scale - weight) + b * weight <= 65535 * scale) by (nonlinear_arith)
            requires
                0 <= a <= 65535,
                0 <= b <= 65535,
                0 < weight < scale,
        ;
    }
}

/// Whether the samples of `table` never fall from one to the next.
pub open spec fn rising(table: Seq<u16>) -> bool {
    forall|i: int, j: int| 0 <= i <= j < table.len() ==> table[i] <= table[j]
}

/// At the position of a sample the interpolation returns that sample: where
/// `input / 65535` is `i / (len - 1)`, the value at `input` is `table[i]`.
pub proof fn lemma_interp16_at_sample(table: Seq<u16>, input: int, i: int)
    requires
        0 <= i < table.len(),
        input * (table.len() - 1) == i * 65535,
    ensures
        interp16(input, table) == table[i],
{
    let position = input * (table.len() - 1);
    assert(position / 65535 == i && position % 65535 == 0);
    assert(table[i] * 65535 / 65535 == table[i]);
}

/// The curve starts at the first sample and ends at the last.
pub proof fn lemma_interp16_ends(table: Seq<u16>)
    requires
        table.len() >= 1,
    ensures
        interp16(0, table) == table[0],
        interp16(65535, table) == table[table.len() - 1],
{
    let last = table.len() - 1;
    assert(0 * last == 0 * 65535);
    assert(65535 * last == last * 65535) by (nonlinear_arith);
    lemma_interp16_at_sample(table, 0, 0);
    lemma_interp16_at_sample(table, 65535, last);
}

/// The interpolated value lies between the two samples it is taken from.
pub proof fn lemma_interp16_between(table: Seq<u16>, input: int)
    requires
        table.len() >= 1,
        0 <= input <= 65535,
    ensures
        ({
            let position = input * (table.len() - 1);
            let cell = position / 65535;
            let next = if position % 65535 == 0 {
                cell
            } else {
                cell + 1
            };
            &&& 0 <= cell <= next < table.len()
            &&& table[cell] <= table[next] ==> table[cell] <= interp16(input, table) <= table[next]
            &&& table[cell] >= table[next] ==> table[cell] >= interp16(input, table) >= table[next]
        }),
{
    lemma_position_in_table(input, table.len() as int, 65535);
    let position = input * (table.len() - 1);
    let cell = position / 65535;
    let weight = position % 65535;
    let a = table[cell] as int;
    if weight != 0 {
        let b = table[cell + 1] as int;
        let mixed = a * (65535 - weight) + b * weight;
        assert(a <= b ==> a * 65535 <= mixed <= b * 65535) by (nonlinear_arith)
            requires
                0 < weight < 65535,
                mixed == a * (65535 - weight) + b * weight,
        ;
        assert(a >= b ==> a * 65535 >= mixed >= b * 65535) by (nonlinear_arith)
            requires
                0 < weight < 65535,
                mixed == a * (65535 - weight) + b * weight,
        ;
    }
}

/// The undivided interpolation over a rising table never falls as the
/// position moves right.
proof fn lemma_blend_monotonic(table: Seq<u16>, p: int, q: int)
    requires
        rising(table),
        0 <= p <= q,
        q / 65535 < table.len(),
        q % 65535 != 0 ==> q / 65535 + 1 < table.len(),
    ensures
        blend(table, p, 65535) <= blend(table, q, 65535),
{
    let c = p / 65535;
    let w = p % 65535;
    let d = q / 65535;
    let v = q % 65535;
    let a = table[c] as int;
    let b = table[d] as int;
    assert(a <= b);
    if c == d {
        if v != 0 {
            let h = table[c + 1] as int;
            assert(a <= h);
            if w == 0 {
                assert(a * 65535 <= a * (65535 - v) + h * v) by (nonlinear_arith)
                    requires
                        a <= h,
                        0 < v < 65535,
                ;
            } else {
                assert(a * (65535 - w) + h * w <= a * (65535 - v) + h * v) by (nonlinear_arith)
                    requires
                        a <= h,
                        0 < w <= v,
                ;
            }
        }
    } else {
        assert(blend(table, p, 65535) <= b * 65535) by {
            if w != 0 {
                let h = table[c + 1] as int;
                assert(a <= h <= b);
                assert(a * (65535 - w) + h * w <= b * 65535) by (nonlinear_arith)
                    requires
                        a <= h <= b,
                        0 < w < 65535,
                ;
            }
        }
        if v != 0 {
            let h = table[d + 1] as int;
            assert(b <= h);
            assert(b * 65535 <= b * (65535 - v) + h * v) by (nonlinear_arith)
                requires
                    b <= h,
                    0 < v < 65535,
            ;
        }
    }
}

/// Over a rising table the interpolated value never falls as the input
/// grows.
pub proof fn lemma_interp16_monotonic(table: Seq<u16>, a: int, b: int)
    requires
        rising(table),
        table.len() >= 1,
        0 <= a <= b <= 65535,
    ensures
        interp16(a, table) <= interp16(b, table),
{
    let last = table.len() - 1;
    lemma_position_in_table(b, table.len() as int, 65535);
    assert(0 <= a * last <= b * last) by (nonlinear_arith)
        requires
            0 <= a <= b,
            0 <= last,
    ;
    lemma_blend_monotonic(table, a * last, b * last);
}

/// Interpolates linearly in `table` at `input_value`, both the input and the
/// result being 16-bit fractions of the curve's domain and range.
pub fn lut_interp_linear16(input_value: u16, table: &[u16]) -> (value: u16)
    requires
        table@.len() >= 1,
    ensures
        value == interp16(input_value as int, table@),
{
    let last: u128 = (table.len() - 1) as u128;
    proof {
        lemma_position_in_table(input_value as int, table@.len() as int, 65535);
        lemma_blend_bounds(table@, input_value as int * (table@.len() - 1), 65535);
    }
    assert(input_value as int * last as int <= 65535 * last as int) by (nonlinear_arith)
        requires
            0 <= input_value as int <= 65535,
            0 <= last as int,
    ;
    let position: u128 = input_value as u128 * last;
    let cell: usize = (position / 65535) as usize;
    let weight: u64 = (position % 65535) as u64;
    let low: u64 = table[cell] as u64;
    if weight == 0 {
        assert(low as int * 65535 / 65535 == low as int);
        low as u16
    } else {
        let high: u64 = table[cell + 1] as u64;
        assert(low * (65535 - weight) + high * weight <= 65535 * 65535) by (nonlinear_arith)
            requires
                0 <= low <= 65535,
                0 <= high <= 65535,
                0 < weight < 65535,
        ;
        ((low * (65535 - weight) + high * weight) / 65535) as u16
    }
}

/// Interpolates linearly in `table` at `input_value` steps out of
/// `PRECACHE_OUTPUT_MAX` and scales the 16-bit result down to 8 bits, rounding
/// to the nearest level.
pub fn lut_interp_linear_precache_output(input_value: u32, table: &[u16]) -> (value: u8)
    requires
        input_value <= PRECACHE_OUTPUT_MAX,
        table@.len() >= 1,
    ensures
        value == interp_precache(input_value as int, table@),
{
    let scale: u64 = PRECACHE_OUTPUT_MAX as u64;
    let last: u128 = (table.len() - 1) as u128;
    proof {
        lemma_position_in_table(input_value as int, table@.len() as int, scale as int);
        lemma_blend_bounds(table@, input_value as int * (table@.len() - 1), scale as int);
    }
    assert(input_value as int * last as int <= scale * last as int) by (nonlinear_arith)
        requires
            0 <= input_value as int <= scale,
            0 <= last as int,
    ;
    let position: u128 = input_value as u128 * last;
    let cell: usize = (position / scale as u128) as usize;
    let weight: u64 = (position % scale as u128) as u64;
    let low: u64 = table[cell] as u64;
    let blended: u64 = if weight == 0 {
        low * scale
    } else {
        let high: u64 = table[cell + 1] as u64;
        assert(low * (scale - weight) + high * weight <= 65535 * scale) by (nonlinear_arith)
            requires
                0 <= low <= 65535,
                0 <= high <= 65535,
                0 < weight < scale,
        ;
        low * (scale - weight) + high * weight
    };
    assert(PRECACHE_STEP == 2105087);
    ((blended + PRECACHE_STEP / 2) / PRECACHE_STEP) as u8
}

} // verus!
