use tone_curve::interp::{
    lut_interp_linear16, lut_interp_linear_precache_output, PRECACHE_OUTPUT_MAX,
    PRECACHE_OUTPUT_SIZE,
};

const TABLE: [u16; 5] = [0, 3104, 14263, 34802, 65535];

#[test]
fn constants_agree() {
    assert_eq!(PRECACHE_OUTPUT_SIZE, 8192);
    assert_eq!(PRECACHE_OUTPUT_MAX, PRECACHE_OUTPUT_SIZE - 1);
}

#[test]
fn interp16_exact_values() {
    let inputs: [u16; 7] = [0, 1, 16384, 32768, 40000, 65534, 65535];
    let expected: [u16; 7] = [0, 0, 3104, 14263, 23329, 65533, 65535];
    for k in 0..inputs.len() {
        assert_eq!(lut_interp_linear16(inputs[k], &TABLE), expected[k]);
    }
}

#[test]
fn interp16_returns_samples_at_their_positions() {
    // 65535 = 3 * 5 * 17 * 257, so a table of 256 samples has every sample at
    // a whole input: sample i sits at input 257 * i.
    let table: Vec<u16> = (0..256u32).map(|i| ((i * i * 65535) / (255 * 255)) as u16).collect();
    for i in 0..256usize {
        assert_eq!(lut_interp_linear16((257 * i) as u16, &table), table[i]);
    }
    let short: [u16; 4] = [7, 1000, 999, 65535];
    assert_eq!(lut_interp_linear16(0, &short), 7);
    assert_eq!(lut_interp_linear16(21845, &short), 1000);
    assert_eq!(lut_interp_linear16(43690, &short), 999);
    assert_eq!(lut_interp_linear16(65535, &short), 65535);
}

#[test]
fn interp16_single_sample_is_constant() {
    let table: [u16; 1] = [500];
    for input in [0u16, 1, 32767, 65535] {
        assert_eq!(lut_interp_linear16(input, &table), 500);
    }
}

#[test]
fn interp16_never_falls_on_a_rising_table() {
    let mut previous: u16 = 0;
    for input in 0..=65535u16 {
        let value = lut_interp_linear16(input, &TABLE);
        assert!(value >= previous);
        previous = value;
    }
}

#[test]
fn precache_interp_exact_values() {
    let inputs: [u32; 7] = [0, 1, 2048, 4096, 5000, 8190, 8191];
    let expected: [u8; 7] = [0, 0, 12, 56, 91, 255, 255];
    for k in 0..inputs.len() {
        assert_eq!(lut_interp_linear_precache_output(inputs[k], &TABLE), expected[k]);
    }
}

#[test]
fn precache_interp_rounds_to_nearest() {
    // 128 / 65535 of full scale is just under half of one 8-bit level, 129 just over.
    assert_eq!(lut_interp_linear_precache_output(0, &[128, 128]), 0);
    assert_eq!(lut_interp_linear_precache_output(0, &[129, 129]), 1);
    assert_eq!(lut_interp_linear_precache_output(8191, &[0, 65535]), 255);
}
