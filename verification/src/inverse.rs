//! Inverse lookup in a sampled table: for a value of the curve, a position
//! that the forward interpolation maps to it, found by bisection and, where
//! bisection closes without a match, by solving the local line.

use vstd::prelude::*;
use crate::fract::{linear_entry, linear_fract, round_fract, round_to_fract};
use crate::interp::{
    blend,
    interp16,
    lemma_interp16_between,
    lemma_interp16_monotonic,
    lemma_position_in_table,
    lut_interp_linear16,
    rising,
};

verus! {

/// Counts the samples equal to 0 from index `from` on, stopping before the
/// last sample of the table.
pub open spec fn zero_run(table: Seq<u16>, from: int) -> int
    decreases table.len() - from,
{
    if 0 <= from < table.len() - 1 && table[from] == 0 {
        zero_run(table, from + 1)
    } else {
        from
    }
}

/// Counts the samples equal to 65535 from the end of the table backwards,
/// `from` of them being counted already, stopping before the first sample.
pub open spec fn pole_run(table: Seq<u16>, from: int) -> int
    decreases table.len() - from,
{
    if 0 <= from < table.len() - 1 && table[table.len() - 1 - from] == 0xffff {
        pole_run(table, from + 1)
    } else {
        from
    }
}

/// Lower end of the search positions: 1, or, past a run of more than one
/// leading zero, the position of the run's last sample less one.
pub open spec fn search_low(table: Seq<u16>) -> int {
    let zeros = zero_run(table, 0);
    if zeros > 1 {
        (zeros - 1) * 65535 / (table.len() - 1) - 1
    } else {
        1
    }
}

/// Upper end of the search positions: 65536, or, before a run of more than
/// one trailing 65535, the position of the last sample ahead of the run plus
/// one.
pub open spec fn search_high(table: Seq<u16>) -> int {
    let poles = pole_run(table, 0);
    if poles > 1 {
        (table.len() - 1 - poles) * 65535 / (table.len() - 1) + 1
    } else {
        0x10000
    }
}

/// Bisection over the search positions `low..=high`. Position `x` stands for
/// the input `x - 1`. The result is `(true, input)` for the first probed
/// input that interpolates to `target` exactly; `(false, x)` with the last
/// probed position (`last` if none was probed) once the range has closed.
pub open spec fn bisect(table: Seq<u16>, target: int, low: int, high: int, last: int) -> (
    bool,
    int,
)
    decreases high - low + 1,
{
    if high <= low {
        (false, last)
    } else {
        let mid = (low + high) / 2;
        let probe = interp16(mid - 1, table);
        if probe == target {
            (true, mid - 1)
        } else if probe > target {
            bisect(table, target, low, mid - 1, mid)
        } else {
            bisect(table, target, mid + 1, high, mid)
        }
    }
}

/// The answer once bisection has closed at position `x` without a match.
///
/// The input `x - 1` lies in one cell of the table. On a sample, or where the
/// line over that cell rises or falls by less than 0.01 per input step, the
/// answer is `x` itself. Otherwise it is the input at which that line takes
/// the value `target`, rounded to the nearest 16-bit fraction.
pub open spec fn refine(table: Seq<u16>, target: int, x: int) -> int {
    let last = table.len() - 1;
    let position = (x - 1) * last;
    let cell = position / 65535;
    if position % 65535 == 0 {
        x
    } else {
        let rise = table[cell + 1] - table[cell];
        let slope = rise * last;
        if -65535 < 100 * slope < 65535 {
            x
        } else {
            let offset = 65535 * ((target - table[cell]) + rise * cell);
            if slope > 0 {
                round_to_fract(offset, slope)
            } else {
                round_to_fract(-offset, -slope)
            }
        }
    }
}

/// The position at which the curve sampled in `table` takes the value
/// `target`, as `lut_inverse_interp16` returns it.
pub open spec fn inverse_interp16(target: int, table: Seq<u16>) -> int {
    let zeros = zero_run(table, 0);
    let poles = pole_run(table, 0);
    let low = search_low(table);
    let high = search_high(table);
    if target == 0 && (zeros == 0 || zeros > 1 || poles > 1) {
        0
    } else if high <= low {
        0
    } else {
        let (found, x) = bisect(table, target, low, high, 0);
        if found {
            x
        } else {
            refine(table, target, x)
        }
    }
}

/// What the run of leading zeros is: every sample in it is 0, it leaves the
/// last sample out, and the sample after it, if it is not the last, is not 0.
pub proof fn lemma_zero_run(table: Seq<u16>, from: int)
    requires
        0 <= from <= table.len() - 1,
    ensures
        from <= zero_run(table, from) <= table.len() - 1,
        forall|i: int| from <= i < zero_run(table, from) ==> table[i] == 0,
        zero_run(table, from) < table.len() - 1 ==> table[zero_run(table, from)] != 0,
    decreases table.len() - from,
{
    if from < table.len() - 1 && table[from] == 0 {
        lemma_zero_run(table, from + 1);
    }
}

/// What the run of trailing poles is: every sample in it is 65535, it leaves
/// the first sample out, and the sample before it, if it is not the first, is
/// not 65535.
pub proof fn lemma_pole_run(table: Seq<u16>, from: int)
    requires
        0 <= from <= table.len() - 1,
    ensures
        from <= pole_run(table, from) <= table.len() - 1,
        forall|j: int|
            table.len() - 1 - pole_run(table, from) < j <= table.len() - 1 - from ==> table[j]
                == 0xffff,
        pole_run(table, from) < table.len() - 1 ==> table[table.len() - 1 - pole_run(
            table,
            from,
        )] != 0xffff,
    decreases table.len() - from,
{
    if from < table.len() - 1 && table[table.len() - 1 - from] == 0xffff {
        lemma_pole_run(table, from + 1);
    }
}

/// A run of `run` samples out of `last + 1` maps to a search position between
/// 1 and 65535 when it is neither empty nor longer than `last`.
proof fn lemma_run_position(run: int, last: int)
    requires
        1 <= run <= last <= 65535,
    ensures
        1 <= run * 65535 / last <= 65535,
{
    assert(1 <= run * 65535 / last <= 65535) by (nonlinear_arith)
        requires
            1 <= run <= last <= 65535,
    ;
}

/// Past two leading zeros the curve is still 0 at the inputs 0 and 1.
proof fn lemma_flat_start(table: Seq<u16>)
    requires
        3 <= table.len() <= 65536,
        zero_run(table, 0) >= 2,
    ensures
        interp16(0, table) == 0,
        interp16(1, table) == 0,
{
    lemma_zero_run(table, 0);
    assert(table[0] == 0 && table[1] == 0);
    assert(0 * (table.len() - 1) == 0);
    assert(1 * (table.len() - 1) == table.len() - 1);
}

/// Looks up, in the curve sampled in `lut_table`, the input that gives
/// `value`; the inverse of `lut_interp_linear16`.
///
/// A `value` of 0 gives 0 unless the table starts with exactly one zero. A
/// table that starts with more than one 0 or ends with more than one 65535 is
/// searched only between those runs; if nothing is left to search the result
/// is 0.
///
/// The table holds at most 65536 samples: a longer one has samples that no
/// 16-bit input reaches.
pub fn lut_inverse_interp16(value: u16, lut_table: &[u16]) -> (position: u16)
    requires
        1 <= lut_table@.len() <= 65536,
    ensures
        position == inverse_interp16(value as int, lut_table@),
        value == 0 && (zero_run(lut_table@, 0) != 1 || pole_run(lut_table@, 0) > 1) ==> position
            == 0,
{
    let length: usize = lut_table.len();
    let last: u64 = (length - 1) as u64;
    let target: i64 = value as i64;

    let mut zeros: usize = 0;
    while zeros < length - 1 && lut_table[zeros] == 0
        invariant
            length == lut_table@.len(),
            length >= 1,
            zeros <= length - 1,
            zero_run(lut_table@, 0) == zero_run(lut_table@, zeros as int),
        decreases length - zeros,
    {
        zeros += 1;
    }
    if zeros == 0 && value == 0 {
        return 0;
    }
    let mut poles: usize = 0;
    while poles < length - 1 && lut_table[length - 1 - poles] == 0xffff
        invariant
            length == lut_table@.len(),
            length >= 1,
            poles <= length - 1,
            pole_run(lut_table@, 0) == pole_run(lut_table@, poles as int),
        decreases length - poles,
    {
        poles += 1;
    }
    proof {
        lemma_zero_run(lut_table@, 0);
        lemma_pole_run(lut_table@, 0);
    }
    let mut l: u64 = 1;
    let mut r: u64 = 0x10000;
    if zeros > 1 || poles > 1 {
        if value == 0 {
            return 0;
        }
        if zeros > 1 {
            proof {
                lemma_run_position(zeros - 1, last as int);
                lemma_flat_start(lut_table@);
            }
            l = (zeros as u64 - 1) * 65535 / last - 1;
        }
        if poles > 1 {
            proof {
                if last as int - poles >= 1 {
                    lemma_run_position(last as int - poles, last as int);
                } else {
                    assert(0int * 65535 / (last as int) == 0) by (nonlinear_arith)
                        requires
                            last > 0,
                    ;
                }
            }
            r = (last - poles as u64) * 65535 / last + 1;
        }
    }
    assert(l == search_low(lut_table@));
    assert(r == search_high(lut_table@));
    if r <= l {
        return 0;
    }
    assert(l >= 1 || r >= 2) by {
        if l == 0 {
            assert(lut_table@[1] == 0);
            assert(poles < length - 1);
            lemma_run_position(last as int - poles, last as int);
        }
    }
    let ghost goal = bisect(lut_table@, target as int, l as int, r as int, 0);
    let mut x: u64 = 0;
    while r > l
        invariant
            1 <= lut_table@.len() <= 65536,
            target == value,
            value != 0 || (zero_run(lut_table@, 0) == 1 && pole_run(lut_table@, 0) <= 1),
            r <= 0x10000,
            l >= 1 || r >= 2,
            l >= 1 || (target >= 1 && interp16(0, lut_table@) == 0 && interp16(1, lut_table@)
                == 0),
            r > l || 1 <= x <= 65535,
            inverse_interp16(value as int, lut_table@) == if goal.0 {
                goal.1
            } else {
                refine(lut_table@, target as int, goal.1)
            },
            goal == bisect(lut_table@, target as int, l as int, r as int, x as int),
        ensures
            1 <= x <= 65535,
            goal == (false, x as int),
        decreases r + 1 - l,
    {
        x = (l + r) / 2;
        let probe: i64 = lut_interp_linear16((x - 1) as u16, lut_table) as i64;
        if probe == target {
            return (x - 1) as u16;
        }
        if probe > target {
            r = x - 1;
        } else {
            l = x + 1;
        }
    }

    assert((x - 1) * last <= 65535 * 65535) by (nonlinear_arith)
        requires
            1 <= x <= 65535,
            0 <= last <= 65535,
    ;
    let position: u64 = (x - 1) * last;
    proof {
        lemma_position_in_table(x as int - 1, length as int, 65535);
    }
    if position % 65535 == 0 {
        return x as u16;
    }
    let cell: usize = (position / 65535) as usize;
    let y0: i64 = lut_table[cell] as i64;
    let y1: i64 = lut_table[cell + 1] as i64;
    let rise: i64 = y1 - y0;
    assert(-65535 * 65535 <= rise * last <= 65535 * 65535) by (nonlinear_arith)
        requires
            -65535 <= rise <= 65535,
            0 <= last <= 65535,
    ;
    let slope: i64 = rise * last as i64;
    if -65535 < 100 * slope && 100 * slope < 65535 {
        return x as u16;
    }
    assert(-65535 * 65535 <= rise * cell <= 65535 * 65535) by (nonlinear_arith)
        requires
            -65535 <= rise <= 65535,
            0 <= cell <= 65535,
    ;
    let offset: i64 = 65535 * ((target - y0) + rise * cell as i64);
    if slope > 0 {
        round_fract(offset, slope)
    } else {
        round_fract(-offset, -slope)
    }
}

/// The inverse of the curve sampled in `table`, sampled at `len` evenly spread
/// values.
pub open spec fn inverted(table: Seq<u16>, len: nat) -> Seq<u16> {
    Seq::new(len, |i: int| inverse_interp16(linear_entry(i, len as int), table) as u16)
}

/// Inverts the curve sampled in `table` into a table of `out_length` samples:
/// one inverse lookup for each of `out_length` evenly spread values.
pub fn invert_lut(table: &[u16], out_length: usize) -> (output: Vec<u16>)
    requires
        1 <= table@.len() <= 65536,
    ensures
        output@ == inverted(table@, out_length as nat),
{
    let mut output: Vec<u16> = Vec::with_capacity(out_length);
    let mut i: usize = 0;
    while i < out_length
        invariant
            1 <= table@.len() <= 65536,
            i <= out_length,
            output@.len() == i,
            forall|k: int|
                0 <= k < i ==> output@[k] == inverse_interp16(
                    linear_entry(k, out_length as int),
                    table@,
                ),
        decreases out_length - i,
    {
        let input: u16 = linear_fract(i, out_length);
        output.push(lut_inverse_interp16(input, table));
        i += 1;
    }
    assert(output@ =~= inverted(table@, out_length as nat));
    output
}

/// Bisection stays within its range. An input it finds gives `target` and
/// was probed from a position in `low..high`; if it closes, the last position
/// it probed is in `low..high` too.
pub proof fn lemma_bisect_within(table: Seq<u16>, target: int, low: int, high: int, last: int)
    ensures
        ({
            let (found, x) = bisect(table, target, low, high, last);
            &&& found ==> interp16(x, table) == target && low <= x + 1 < high
            &&& !found && low < high ==> low <= x < high
            &&& !found && low >= high ==> x == last
        }),
    decreases high - low + 1,
{
    if high > low {
        let mid = (low + high) / 2;
        let probe = interp16(mid - 1, table);
        if probe > target {
            lemma_bisect_within(table, target, low, mid - 1, mid);
        } else if probe < target {
            lemma_bisect_within(table, target, mid + 1, high, mid);
        }
    }
}

/// Over a rising table, bisection for the value at `input` either finds an
/// input with that value, or closes with its last probe right beside
/// `input`: at `input - 1` or at `input + 1`.
pub proof fn lemma_bisect_complete(table: Seq<u16>, input: int, low: int, high: int, last: int)
    requires
        rising(table),
        table.len() >= 1,
        1 <= low <= input + 1 <= high <= 65536,
        low == high ==> last == input || last == input + 2,
    ensures
        ({
            let (found, x) = bisect(table, interp16(input, table), low, high, last);
            if found {
                interp16(x, table) == interp16(input, table)
            } else {
                x == input || x == input + 2
            }
        }),
    decreases high - low + 1,
{
    let target = interp16(input, table);
    if high > low {
        let mid = (low + high) / 2;
        let probe = interp16(mid - 1, table);
        if probe > target {
            if mid - 1 <= input {
                lemma_interp16_monotonic(table, mid - 1, input);
            }
            lemma_bisect_complete(table, input, low, mid - 1, mid);
        } else if probe < target {
            if input <= mid - 1 {
                lemma_interp16_monotonic(table, input, mid - 1);
            }
            lemma_bisect_complete(table, input, mid + 1, high, mid);
        }
    }
}

/// Inverse lookup undoes interpolation, as far as bisection can tell inputs
/// apart. For a rising table that neither starts with two zeros nor ends with
/// two poles, and `value` the value at `input`, the inverse lookup of `value`
/// is
///
/// - an input that has the value `value` as well, or
/// - where `input` is the only one that has it and bisection closed beside
///   it, the answer worked out from the last probe, `input - 1` or
///   `input + 1`.
pub proof fn lemma_inverse_of_forward(table: Seq<u16>, input: int)
    requires
        rising(table),
        1 <= table.len() <= 65536,
        0 <= input <= 65535,
        zero_run(table, 0) <= 1,
        pole_run(table, 0) <= 1,
    ensures
        ({
            let value = interp16(input, table);
            let back = inverse_interp16(value, table);
            ||| interp16(back, table) == value
            ||| {
                &&& back == refine(table, value, input) || back == refine(table, value, input + 2)
                &&& input > 0 ==> interp16(input - 1, table) < value
                &&& input < 65535 ==> interp16(input + 1, table) > value
            }
        }),
{
    let value = interp16(input, table);
    lemma_zero_run(table, 0);
    lemma_interp16_between(table, input);
    if value == 0 && zero_run(table, 0) == 0 {
        assert(table[0] == 0) by {
            let cell = input * (table.len() - 1) / 65535;
            assert(table[0] <= table[cell]);
        }
        assert(0 * (table.len() - 1) == 0);
        assert(interp16(0, table) == 0);
    } else {
        lemma_bisect_complete(table, input, 1, 65536, 0);
        let (found, x) = bisect(table, value, 1, 65536, 0);
        if !found {
            if input > 0 {
                lemma_interp16_monotonic(table, input - 1, input);
                if interp16(input - 1, table) == value {
                    lemma_bisect_complete(table, input - 1, 1, 65536, 0);
                }
            }
            if input < 65535 {
                lemma_interp16_monotonic(table, input, input + 1);
                if interp16(input + 1, table) == value {
                    lemma_bisect_complete(table, input + 1, 1, 65536, 0);
                }
            }
        }
    }
}

/// Rounding `input - e / denom`, where `e / denom` is at least 0 and less
/// than 100, gives `input` or one of the 100 fractions below it.
proof fn lemma_round_near(input: int, denom: int, e: int)
    requires
        0 <= input <= 65535,
        denom > 0,
        0 <= e < 100 * denom,
    ensures
        input - 100 <= round_to_fract(input * denom - e, denom) <= input,
{
    let numer = input * denom - e;
    if numer < 0 {
        assert(input < 100) by (nonlinear_arith)
            requires
                input * denom - e < 0,
                e < 100 * denom,
                denom > 0,
        ;
    } else if numer >= 65535 * denom {
        assert(input >= 65535) by (nonlinear_arith)
            requires
                input * denom - e >= 65535 * denom,
                e >= 0,
                denom > 0,
        ;
    } else {
        assert(input - 100 <= (2 * numer + denom) / (2 * denom) <= input) by (nonlinear_arith)
            requires
                numer == input * denom - e,
                0 <= e < 100 * denom,
                denom > 0,
        ;
    }
}

/// The answer worked out from a probe beside `input` is close to `input`
/// where no sample lies between the two. With `x - 1` the probed input, one
/// step from `input`, and, unless the probe is on a sample, the position of
/// `input` within the cell that the probe is in, a cell over which the table
/// does not fall: the answer is at most 100 below `input` and at most 2
/// above it.
pub proof fn lemma_refine_near(table: Seq<u16>, input: int, x: int)
    requires
        2 <= table.len() <= 65536,
        0 <= input <= 65535,
        1 <= x <= 65535,
        x == input || x == input + 2,
        ({
            let last = table.len() - 1;
            let cell = (x - 1) * last / 65535;
            (x - 1) * last % 65535 != 0 ==> {
                &&& cell * 65535 <= input * last <= (cell + 1) * 65535
                &&& table[cell] <= table[cell + 1]
            }
        }),
    ensures
        input - 100 <= refine(table, interp16(input, table), x) <= input + 2,
{
    let last = table.len() - 1;
    let value = interp16(input, table);
    let position = (x - 1) * last;
    let cell = position / 65535;
    lemma_position_in_table(x - 1, table.len() as int, 65535);
    lemma_position_in_table(input, table.len() as int, 65535);
    if position % 65535 != 0 {
        let rise = table[cell + 1] - table[cell];
        let slope = rise * last;
        assert(slope >= 0) by (nonlinear_arith)
            requires
                slope == rise * last,
                rise >= 0,
                last >= 0,
        ;
        if 100 * slope >= 65535 {
            let offset = 65535 * ((value - table[cell]) + rise * cell);
            let here = input * last;
            let mixed = blend(table, here, 65535);
            let e = mixed - 65535 * value;
            assert(0 <= e < 65535);
            assert(mixed == 65535 * table[cell] + rise * (here - cell * 65535)) by {
                if here == (cell + 1) * 65535 {
                    assert(here / 65535 == cell + 1 && here % 65535 == 0);
                    assert(rise * (here - cell * 65535) == rise * 65535) by (nonlinear_arith)
                        requires
                            here - cell * 65535 == 65535,
                    ;
                } else {
                    let w = here - cell * 65535;
                    assert(here / 65535 == cell && here % 65535 == w);
                    if w == 0 {
                        assert(rise * w == 0) by (nonlinear_arith)
                            requires
                                w == 0,
                        ;
                    } else {
                        assert(table[cell] * (65535 - w) + table[cell + 1] * w == 65535
                            * table[cell] + rise * w) by (nonlinear_arith)
                            requires
                                rise == table[cell + 1] - table[cell],
                        ;
                    }
                }
            }
            assert(offset == input * slope - e) by (nonlinear_arith)
                requires
                    offset == 65535 * ((value - table[cell]) + rise * cell),
                    e == mixed - 65535 * value,
                    mixed == 65535 * table[cell] + rise * (here - cell * 65535),
                    here == input * last,
                    slope == rise * last,
            ;
            lemma_round_near(input, slope, e);
        }
    }
}

/// Inverse lookup after interpolation comes back to the input or near it.
///
/// For a rising table that neither starts with two zeros nor ends with two
/// poles, and an input whose two neighbours lie with it between the same two
/// samples, the inverse lookup of the value at `input` is an input with that
/// same value, or one at most 100 below `input` and at most 2 above it.
pub proof fn lemma_round_trip(table: Seq<u16>, input: int)
    requires
        rising(table),
        2 <= table.len() <= 65536,
        0 <= input <= 65535,
        zero_run(table, 0) <= 1,
        pole_run(table, 0) <= 1,
        ({
            let last = table.len() - 1;
            let before = if input > 0 {
                input - 1
            } else {
                input
            };
            let after = if input < 65535 {
                input + 1
            } else {
                input
            };
            after * last <= (before * last / 65535 + 1) * 65535
        }),
    ensures
        ({
            let value = interp16(input, table);
            let back = inverse_interp16(value, table);
            interp16(back, table) == value || input - 100 <= back <= input + 2
        }),
{
    let last = table.len() - 1;
    let value = interp16(input, table);
    let back = inverse_interp16(value, table);
    lemma_inverse_of_forward(table, input);
    if interp16(back, table) != value {
        lemma_zero_run(table, 0);
        lemma_bisect_within(table, value, 1, 65536, 0);
        let (found, x) = bisect(table, value, 1, 65536, 0);
        assert(!found && back == refine(table, value, x));
        assert(x == input || x == input + 2) by {
            lemma_bisect_complete(table, input, 1, 65536, 0);
        }
        let before = if input > 0 {
            input - 1
        } else {
            input
        };
        let after = if input < 65535 {
            input + 1
        } else {
            input
        };
        let floor = before * last / 65535;
        lemma_position_in_table(before, table.len() as int, 65535);
        lemma_position_in_table(x - 1, table.len() as int, 65535);
        assert(before * last <= input * last <= after * last && before * last <= (x - 1) * last
            <= after * last) by (nonlinear_arith)
            requires
                before <= input <= after,
                before <= x - 1 <= after,
                last >= 0,
        ;
        let cell = (x - 1) * last / 65535;
        if (x - 1) * last % 65535 != 0 {
            assert(cell == floor);
            assert(table[cell] <= table[cell + 1]);
        }
        lemma_refine_near(table, input, x);
    }
}

} // verus!
