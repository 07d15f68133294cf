use tone_curve::interp::lut_interp_linear16;
use tone_curve::inverse::{invert_lut, lut_inverse_interp16};

#[test]
fn invert_lut_five_samples() {
    let table: [u16; 5] = [0, 3104, 14263, 34802, 65535];
    assert_eq!(invert_lut(&table, 5), vec![3, 34459, 47529, 56801, 65535]);
}

#[test]
fn invert_lut_lengths() {
    let table: [u16; 2] = [0, 65535];
    assert_eq!(invert_lut(&table, 0), Vec::<u16>::new());
    assert_eq!(invert_lut(&table, 1), vec![0]);
    assert_eq!(invert_lut(&table, 3), vec![0, 32768, 65535]);
    let inverse = invert_lut(&table, 256);
    assert_eq!(inverse.len(), 256);
    assert_eq!(&inverse[..4], &[0, 257, 514, 771]);
    assert_eq!(inverse[128], 32896);
    assert_eq!(inverse[255], 65535);
}

#[test]
fn invert_lut_of_tables_that_do_not_rise() {
    assert_eq!(invert_lut(&[65535, 0], 4), vec![0, 43690, 21845, 0]);
    assert_eq!(
        invert_lut(&[0, 40000, 20000, 65535], 6),
        vec![0, 7158, 14316, 52959, 59247, 65535]
    );
}

#[test]
fn inverse_of_zero_without_leading_zero_is_zero() {
    assert_eq!(lut_inverse_interp16(0, &[5, 100, 65535]), 0);
    assert_eq!(lut_inverse_interp16(0, &[500]), 0);
}

#[test]
fn degenerate_leading_zeros() {
    let table: [u16; 5] = [0, 0, 0, 10000, 20000];
    assert_eq!(lut_inverse_interp16(0, &table), 0);
    // Two of four cells are flat: the search starts at (3 - 1) * 65535 / 4 - 1.
    let low: u16 = 32766;
    let targets: [u16; 7] = [1, 5000, 10000, 15000, 20000, 30000, 65535];
    let expected: [u16; 7] = [32770, 40961, 49152, 57343, 65535, 65535, 65535];
    for k in 0..targets.len() {
        let position = lut_inverse_interp16(targets[k], &table);
        assert_eq!(position, expected[k]);
        assert!(position >= low - 1);
    }
}

#[test]
fn degenerate_trailing_poles() {
    let table: [u16; 5] = [0, 100, 65535, 65535, 65535];
    let targets: [u16; 6] = [0, 1, 50, 100, 30000, 65535];
    let expected: [u16; 6] = [0, 255, 8319, 16383, 16383, 16383];
    for k in 0..targets.len() {
        assert_eq!(lut_inverse_interp16(targets[k], &table), expected[k]);
    }
}

#[test]
fn nothing_left_to_search_gives_zero() {
    // All samples but the first are poles: the search would end where it starts.
    let table: [u16; 3] = [5, 65535, 65535];
    for target in [0u16, 1, 100, 30000, 65535] {
        assert_eq!(lut_inverse_interp16(target, &table), 0);
    }
}

#[test]
fn single_sample_table() {
    let table: [u16; 1] = [500];
    assert_eq!(lut_inverse_interp16(499, &table), 2);
    assert_eq!(lut_inverse_interp16(500, &table), 32767);
    assert_eq!(lut_inverse_interp16(501, &table), 65535);
}

#[test]
fn exact_halves_round_upwards() {
    // 256 samples of x^(1/2.2). For the target 32768 the local line is met at
    // 14263.5 exactly.
    let table: Vec<u16> = (0..256u32)
        .map(|i| ((i as f64 / 255.0).powf(1.0 / 2.2) * 65535.0 + 0.5) as u16)
        .collect();
    assert_eq!(lut_inverse_interp16(32768, &table), 14264);
    assert_eq!(lut_inverse_interp16(23813, &table), 7068);
}

#[test]
fn inverse_of_forward_is_close_on_a_steep_table() {
    // Samples of the identity: every cell rises by one output step per input step.
    let table: Vec<u16> = (0..256u32).map(|i| (i * 257) as u16).collect();
    for input in 0..=65535u16 {
        let value = lut_interp_linear16(input, &table);
        assert_eq!(value, input);
        let back = lut_inverse_interp16(value, &table);
        assert!((back as i32 - input as i32).abs() <= 2);
    }
}

#[test]
fn inverse_of_forward_on_a_curved_table() {
    let table: [u16; 5] = [0, 3104, 14263, 34802, 65535];
    for input in 0..=65535u16 {
        let value = lut_interp_linear16(input, &table);
        let back = lut_inverse_interp16(value, &table);
        assert!((back as i32 - input as i32).abs() <= 5);
        // Where the answer is off, it is an input with the same value or a neighbour.
        let again = lut_interp_linear16(back, &table);
        assert!((again as i32 - value as i32).abs() <= 2);
    }
}

#[test]
fn inverse_of_forward_within_a_cell() {
    // Inputs whose neighbours lie between the same two samples come back
    // exactly in value, or within 100 below and 2 above in position.
    let tables: [Vec<u16>; 3] = [
        vec![0, 3104, 14263, 34802, 65535],
        vec![0, 1000, 65535],
        vec![7, 7, 7, 900, 901, 40000],
    ];
    for table in tables.iter() {
        let last = (table.len() - 1) as u64;
        for input in 0..=65535u64 {
            let before = input.saturating_sub(1);
            let after = (input + 1).min(65535);
            if after * last > (before * last / 65535 + 1) * 65535 {
                continue;
            }
            let value = lut_interp_linear16(input as u16, table);
            let back = lut_inverse_interp16(value, table);
            let same_value = lut_interp_linear16(back, table) == value;
            let near = input as i64 - 100 <= back as i64 && back as i64 <= input as i64 + 2;
            assert!(same_value || near);
        }
    }
}

#[test]
fn inverse_of_forward_can_be_far_on_a_flat_cell() {
    // The first cell rises by one step over half the inputs: all of them
    // have the value 0, and the lookup of 0 cannot tell them apart.
    let table: [u16; 3] = [0, 1, 65535];
    assert_eq!(lut_interp_linear16(0, &table), 0);
    assert_eq!(lut_inverse_interp16(0, &table), 32767);
    assert_eq!(lut_interp_linear16(32767, &table), 0);
}
