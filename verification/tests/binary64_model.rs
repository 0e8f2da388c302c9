use image_wasm::binary64::{
    bit_length_of, divide, divide_ties_even, multiply, round_to_integer, two_to, GridValue,
};

/// The value of a positive finite machine number in units of 2^-84.
fn grid_units(x: f64) -> u128 {
    let bits = x.to_bits();
    let fraction = (bits & ((1u64 << 52) - 1)) | (1u64 << 52);
    let exponent = ((bits >> 52) & 0x7ff) as i32 - 1075;
    let shift = exponent + 84;
    assert!(shift >= 0);
    (fraction as u128) << shift
}

fn value_of(x: GridValue) -> u128 {
    (x.significand as u128) << x.shift
}

fn next(state: &mut u64) -> u64 {
    *state ^= *state << 13;
    *state ^= *state >> 7;
    *state ^= *state << 17;
    *state
}

#[test]
fn powers_of_two_are_exact() {
    assert_eq!(two_to(0), 1);
    assert_eq!(two_to(1), 2);
    assert_eq!(two_to(84), 1u128 << 84);
    assert_eq!(two_to(127), 1u128 << 127);
}

#[test]
fn bit_length_counts_binary_digits() {
    assert_eq!(bit_length_of(0), 0);
    assert_eq!(bit_length_of(1), 1);
    assert_eq!(bit_length_of(255), 8);
    assert_eq!(bit_length_of(256), 9);
    assert_eq!(bit_length_of(1u128 << 52), 53);
    assert_eq!(bit_length_of(u128::MAX), 128);
}

#[test]
fn nearest_integer_sends_ties_to_even() {
    assert_eq!(divide_ties_even(5, 2), 2);
    assert_eq!(divide_ties_even(7, 2), 4);
    assert_eq!(divide_ties_even(9, 4), 2);
    assert_eq!(divide_ties_even(10, 4), 2);
    assert_eq!(divide_ties_even(11, 4), 3);
    assert_eq!(divide_ties_even(14, 4), 4);
    assert_eq!(divide_ties_even(12, 4), 3);
    assert_eq!(divide_ties_even(0, 9), 0);
    assert_eq!(divide_ties_even(u128::MAX - 1, 1), u128::MAX - 1);
}

#[test]
fn quotient_of_equal_numbers_is_one() {
    let one = divide(7, 7);
    assert_eq!(value_of(one), 1u128 << 84);
    assert_eq!(one.significand, 1u64 << 52);
    assert_eq!(one.shift, 32);
}

#[test]
fn quotient_is_the_machine_quotient() {
    assert_eq!(value_of(divide(1, 3)), grid_units(1.0 / 3.0));
    assert_eq!(value_of(divide(2, 3)), grid_units(2.0 / 3.0));
    assert_eq!(value_of(divide(1, u32::MAX)), grid_units(1.0 / u32::MAX as f64));
    assert_eq!(value_of(divide(u32::MAX, 1)), grid_units(u32::MAX as f64));
    assert_eq!(value_of(divide(u32::MAX, u32::MAX - 1)), grid_units(u32::MAX as f64 / (u32::MAX - 1) as f64));
    let mut state: u64 = 0x5555_aaaa_1234_9876;
    for _ in 0..100_000 {
        let a = ((next(&mut state) >> (32 + next(&mut state) % 32)) as u32).max(1);
        let b = ((next(&mut state) >> (32 + next(&mut state) % 32)) as u32).max(1);
        let q = divide(a, b);
        assert_eq!(value_of(q), grid_units(a as f64 / b as f64), "{a} / {b}");
        assert!((1u64 << 52) <= q.significand && q.significand <= (1u64 << 53));
    }
}

#[test]
fn product_is_the_machine_product() {
    let third = divide(1, 3);
    assert_eq!(value_of(multiply(3, third)), grid_units(3.0 * (1.0 / 3.0)));
    assert_eq!(value_of(multiply(1, third)), grid_units(1.0 / 3.0));
    let mut state: u64 = 0x0f0f_3c3c_a5a5_7e7e;
    for _ in 0..100_000 {
        let a = ((next(&mut state) >> (32 + next(&mut state) % 32)) as u32).max(1);
        let b = ((next(&mut state) >> (32 + next(&mut state) % 32)) as u32).max(1);
        let k = ((next(&mut state) >> (32 + next(&mut state) % 32)) as u32).max(1);
        let p = multiply(k, divide(a, b));
        assert_eq!(value_of(p), grid_units(k as f64 * (a as f64 / b as f64)), "{k} * ({a} / {b})");
    }
}

#[test]
fn rounding_sends_ties_away_from_zero() {
    let half = GridValue { significand: 1u64 << 52, shift: 31 };
    assert_eq!(round_to_integer(half), 1);
    let below_half = GridValue { significand: (1u64 << 53) - 1, shift: 30 };
    assert_eq!(round_to_integer(below_half), 0);
    let two_and_a_half = GridValue { significand: 5u64 << 50, shift: 33 };
    assert_eq!(round_to_integer(two_and_a_half), 3);
    let tiny = GridValue { significand: 1u64 << 52, shift: 0 };
    assert_eq!(round_to_integer(tiny), 0);
    let whole = GridValue { significand: 1u64 << 52, shift: 64 };
    assert_eq!(round_to_integer(whole), 1u128 << 32);
    let largest = GridValue { significand: 1u64 << 53, shift: 96 };
    assert_eq!(round_to_integer(largest), 1u128 << 65);
}

#[test]
fn rounding_is_the_machine_rounding() {
    let mut state: u64 = 0x1357_9bdf_0246_8ace;
    for _ in 0..100_000 {
        let a = ((next(&mut state) >> (32 + next(&mut state) % 32)) as u32).max(1);
        let b = ((next(&mut state) >> (32 + next(&mut state) % 32)) as u32).max(1);
        let k = ((next(&mut state) >> (32 + next(&mut state) % 32)) as u32).max(1);
        let x = k as f64 * (a as f64 / b as f64);
        let nearest = round_to_integer(multiply(k, divide(a, b)));
        assert_eq!(nearest, x.round() as u128, "{k} * ({a} / {b})");
    }
}
