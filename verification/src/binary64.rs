//! An integer model of the IEEE 754 binary64 operations that the scale policy
//! is defined by: a correctly rounded quotient of two integers, a correctly
//! rounded product of an integer with such a quotient, and rounding of the
//! product to the nearest integer with ties away from zero.
//!
//! The operands are positive and below 2^32, so every value that occurs lies
//! between 2^-32 and 2^64 and is a whole multiple of 2^-84. The model therefore
//! measures values in *grid units* of 2^-84 and works on natural numbers.

use vstd::prelude::*;
use vstd::arithmetic::power2::*;
use vstd::arithmetic::div_mod::*;
use vstd::arithmetic::mul::*;

verus! {

/// The number of fractional bits of the grid: one grid unit is 2^-84.
pub const FRACTION_BITS: u32 = 84;

/// The number of significant bits that a binary64 value keeps.
pub const PRECISION: u32 = 53;

/// The number of binary digits of `n`: the least `b` with `n < 2^b`.
pub open spec fn bit_length(n: nat) -> nat
    decreases n,
{
    if n == 0 {
        0
    } else {
        1 + bit_length(n / 2)
    }
}

/// The integer nearest to `n / d`; a tie goes to the even neighbour.
pub open spec fn nearest_ties_even(n: nat, d: nat) -> nat {
    let q: nat = n / d;
    let r: nat = n % d;
    if 2 * r < d || (2 * r == d && q % 2 == 0) {
        q
    } else {
        q + 1
    }
}

/// The number of low bits of the integer part of `n / d` that do not fit into
/// the precision.
pub open spec fn excess_bits(n: nat, d: nat) -> nat {
    let len: nat = bit_length(n / d);
    if len > 53 {
        (len - 53) as nat
    } else {
        0
    }
}

/// The rational `n / d`, which is at least 2^52, rounded to 53 significant
/// bits; a tie goes to the even significand.
pub open spec fn round_to_precision(n: nat, d: nat) -> nat {
    let drop: nat = excess_bits(n, d);
    nearest_ties_even(n, d * pow2(drop)) * pow2(drop)
}

/// The binary64 quotient `a / b` of two positive integers below 2^32, in grid
/// units.
pub open spec fn quotient(a: nat, b: nat) -> nat {
    round_to_precision(a * pow2(84), b)
}

/// The binary64 product of a positive integer `k` below 2^32 with the value of
/// `x` grid units, in grid units.
pub open spec fn product(k: nat, x: nat) -> nat {
    round_to_precision(k * x, 1)
}

/// The integer nearest to the value of `x` grid units; a tie goes away from
/// zero.
pub open spec fn nearest_ties_away(x: nat) -> nat {
    (x + pow2(83)) / pow2(84)
}

/// The powers of two that the model names, as numerals.
pub proof fn lemma_grid_powers()
    ensures
        pow2(0) == 1,
        pow2(1) == 2,
        pow2(31) == 0x8000_0000,
        pow2(32) == 0x1_0000_0000,
        pow2(33) == 0x2_0000_0000,
        pow2(52) == 0x10_0000_0000_0000,
        pow2(53) == 0x20_0000_0000_0000,
        pow2(64) == 0x1_0000_0000_0000_0000,
        pow2(83) == 0x8_0000_0000_0000_0000_0000,
        pow2(84) == 0x10_0000_0000_0000_0000_0000,
        pow2(116) == 0x10_0000_0000_0000_0000_0000_0000_0000,
        pow2(127) == 0x8000_0000_0000_0000_0000_0000_0000_0000,
{
    lemma2_to64();
    lemma2_to64_rest();
    lemma_pow2_adds(64, 19);
    lemma_pow2_adds(64, 20);
    lemma_pow2_adds(64, 52);
    lemma_pow2_adds(64, 63);
}

/// A positive number lies between the two powers of two that its bit length
/// names.
pub proof fn lemma_bit_length_bounds(n: nat)
    requires
        n > 0,
    ensures
        bit_length(n) > 0,
        pow2((bit_length(n) - 1) as nat) <= n < pow2(bit_length(n)),
    decreases n,
{
    lemma2_to64();
    if n == 1 {
        assert(bit_length(0) == 0);
        assert(bit_length(1) == 1 + bit_length(0));
    } else {
        let half: nat = n / 2;
        lemma_bit_length_bounds(half);
        let b: nat = bit_length(half);
        assert(bit_length(n) == b + 1);
        lemma_pow2_unfold(b);
        lemma_pow2_unfold(b + 1);
    }
}

/// The bit length is the only exponent whose powers of two enclose `n`.
pub proof fn lemma_bit_length_unique(n: nat, b: nat)
    requires
        b > 0,
        pow2((b - 1) as nat) <= n < pow2(b),
    ensures
        bit_length(n) == b,
{
    lemma_pow2_pos((b - 1) as nat);
    lemma_bit_length_bounds(n);
    let c: nat = bit_length(n);
    if c < b {
        if c < b - 1 {
            lemma_pow2_strictly_increases(c, (b - 1) as nat);
        }
    } else if c > b {
        if b < c - 1 {
            lemma_pow2_strictly_increases(b, (c - 1) as nat);
        }
    }
}

/// The bit length does not decrease when the number grows.
pub proof fn lemma_bit_length_monotonic(a: nat, b: nat)
    requires
        a <= b,
    ensures
        bit_length(a) <= bit_length(b),
    decreases b,
{
    if a > 0 {
        lemma_bit_length_monotonic(a / 2, b / 2);
    }
}

/// Multiplying a positive number by 2^k appends `k` binary digits.
pub proof fn lemma_bit_length_shifted(n: nat, k: nat)
    requires
        n > 0,
    ensures
        bit_length(n * pow2(k)) == bit_length(n) + k,
{
    lemma_bit_length_bounds(n);
    let b: nat = bit_length(n);
    lemma_pow2_adds((b - 1) as nat, k);
    lemma_pow2_adds(b, k);
    lemma_pow2_pos(k);
    lemma_mul_inequality(pow2((b - 1) as nat) as int, n as int, pow2(k) as int);
    lemma_mul_strict_inequality(n as int, pow2(b) as int, pow2(k) as int);
    lemma_bit_length_unique(n * pow2(k), b + k);
}

/// Computes 2^k.
pub fn two_to(k: u32) -> (power: u128)
    requires
        k <= 127,
    ensures
        power == pow2(k as nat),
{
    let mut power: u128 = 1;
    let mut i: u32 = 0;
    proof {
        lemma_grid_powers();
    }
    while i < k
        invariant
            i <= k <= 127,
            power == pow2(i as nat),
        decreases k - i,
    {
        proof {
            lemma_grid_powers();
            lemma_pow2_unfold((i + 1) as nat);
            if i + 1 < 127 {
                lemma_pow2_strictly_increases((i + 1) as nat, 127);
            }
        }
        power = power * 2;
        i = i + 1;
    }
    power
}

/// Computes the bit length of `n`.
pub fn bit_length_of(n: u128) -> (len: u32)
    ensures
        len == bit_length(n as nat),
        len <= 128,
{
    let mut len: u32 = 0;
    let mut rest: u128 = n;
    proof {
        if n > 0 {
            lemma_bit_length_bounds(n as nat);
            lemma_grid_powers();
            if bit_length(n as nat) > 128 {
                lemma_pow2_unfold(128);
                if bit_length(n as nat) - 1 > 128 {
                    lemma_pow2_strictly_increases(128, (bit_length(n as nat) - 1) as nat);
                }
            }
        }
    }
    while rest > 0
        invariant
            len + bit_length(rest as nat) == bit_length(n as nat),
            bit_length(n as nat) <= 128,
        decreases rest,
    {
        rest = rest / 2;
        len = len + 1;
    }
    len
}

/// A grid value held as a significand and a power of two.
#[derive(Clone, Copy, Debug)]
pub struct GridValue {
    pub significand: u64,
    pub shift: u32,
}

impl GridValue {
    /// The number of grid units that this value stands for.
    pub open spec fn value(self) -> nat {
        self.significand as nat * pow2(self.shift as nat)
    }

    /// Whether the significand has 53 bits, or is 2^53 after a carry.
    pub open spec fn normal(self) -> bool {
        0x10_0000_0000_0000 <= self.significand <= 0x20_0000_0000_0000
    }
}

/// Scaling numerator and denominator by the same factor does not move the
/// nearest integer.
pub proof fn lemma_nearest_ties_even_scaled(n: nat, d: nat, c: nat)
    requires
        d > 0,
        c > 0,
    ensures
        nearest_ties_even(n * c, d * c) == nearest_ties_even(n, d),
{
    let r: nat = n % d;
    lemma_div_multiples_vanish_quotient(c as int, n as int, d as int);
    lemma_truncate_middle(n as int, c as int, d as int);
    lemma_mul_is_commutative(n as int, c as int);
    lemma_mul_is_commutative(d as int, c as int);
    lemma_mul_is_commutative(r as int, c as int);
    assert((n * c) / (d * c) == n / d);
    assert((n * c) % (d * c) == r * c);
    assert((2 * (r * c) < d * c) == (2 * r < d)) by (nonlinear_arith)
        requires
            c > 0,
    ;
    assert((2 * (r * c) == d * c) == (2 * r == d)) by (nonlinear_arith)
        requires
            c > 0,
    ;
}

/// The nearest integer to `n / d` is the integer part or its successor, and
/// lies within half of `d` of `n` when scaled back.
pub proof fn lemma_nearest_ties_even_error(n: nat, d: nat)
    requires
        d > 0,
    ensures
        n / d <= nearest_ties_even(n, d) <= n / d + 1,
        2 * (nearest_ties_even(n, d) * d - n) <= d,
        2 * (n - nearest_ties_even(n, d) * d) <= d,
{
    let q: nat = n / d;
    let r: nat = n % d;
    lemma_fundamental_div_mod(n as int, d as int);
    lemma_mod_bound(n as int, d as int);
    lemma_mul_is_commutative(d as int, q as int);
    assert((q + 1) * d == q * d + d) by (nonlinear_arith);
}

/// Computes the integer nearest to `n / d`, with ties to the even neighbour.
pub fn divide_ties_even(n: u128, d: u128) -> (nearest: u128)
    requires
        d > 0,
        n / d < u128::MAX,
    ensures
        nearest == nearest_ties_even(n as nat, d as nat),
{
    let q: u128 = n / d;
    let r: u128 = n % d;
    let rest: u128 = d - r;
    if r < rest || (r == rest && q % 2 == 0) {
        q
    } else {
        q + 1
    }
}

/// The integer part of a quotient whose numerator carries 84 fractional bits
/// has between 53 and 116 bits.
pub proof fn lemma_quotient_length(a: nat, b: nat)
    requires
        0 < a < 0x1_0000_0000,
        0 < b < 0x1_0000_0000,
    ensures
        53 <= bit_length((a * pow2(84)) / b) <= 116,
{
    lemma_grid_powers();
    let n: nat = a * pow2(84);
    let q: nat = n / b;
    lemma_fundamental_div_mod(n as int, b as int);
    lemma_mod_bound(n as int, b as int);
    assert(q >= 0x10_0000_0000_0000) by (nonlinear_arith)
        requires
            n == b * q + n % b,
            n % b < b,
            0 < b < 0x1_0000_0000,
            n >= 0x10_0000_0000_0000_0000_0000,
    ;
    assert(q <= n) by (nonlinear_arith)
        requires
            n == b * q + n % b,
            b > 0,
            q >= 0,
            n % b >= 0,
    ;
    lemma_bit_length_unique(0x10_0000_0000_0000, 53);
    lemma_bit_length_monotonic(0x10_0000_0000_0000, q);
    lemma_pow2_unfold(116);
    lemma_bit_length_unique((pow2(116) - 1) as nat, 116);
    lemma_bit_length_monotonic(q, (pow2(116) - 1) as nat);
}

/// When the last `drop` bits of a number of `53 + drop` bits are cut off, 53
/// bits remain.
pub proof fn lemma_kept_bits(q: nat, drop: nat)
    requires
        bit_length(q) == 53 + drop,
    ensures
        0x10_0000_0000_0000 <= q / pow2(drop) < 0x20_0000_0000_0000,
{
    lemma_grid_powers();
    lemma_bit_length_bounds(q);
    lemma_pow2_adds(52, drop);
    lemma_pow2_adds(53, drop);
    lemma_pow2_pos(drop);
    let unit: nat = pow2(drop);
    lemma_fundamental_div_mod(q as int, unit as int);
    lemma_mod_bound(q as int, unit as int);
    let kept: nat = q / unit;
    assert(0x10_0000_0000_0000 <= kept < 0x20_0000_0000_0000) by (nonlinear_arith)
        requires
            q == unit * kept + q % unit,
            0 <= q % unit < unit,
            0x10_0000_0000_0000 * unit <= q < 0x20_0000_0000_0000 * unit,
    ;
}

/// Computes the binary64 quotient of two positive integers.
pub fn divide(a: u32, b: u32) -> (q: GridValue)
    requires
        a > 0,
        b > 0,
    ensures
        q.value() == quotient(a as nat, b as nat),
        q.normal(),
        q.shift <= 63,
{
    proof {
        lemma_grid_powers();
        lemma_quotient_length(a as nat, b as nat);
    }
    let unit: u128 = two_to(FRACTION_BITS);
    let n: u128 = (a as u128) * unit;
    let whole: u128 = n / (b as u128);
    let len: u32 = bit_length_of(whole);
    let drop: u32 = len - PRECISION;
    let step: u128 = two_to(drop);
    proof {
        lemma_pow2_pos(drop as nat);
        if drop < 63 {
            lemma_pow2_strictly_increases(drop as nat, 63);
        }
        lemma2_to64_rest();
        assert((b as nat) * pow2(drop as nat) <= 0x1_0000_0000 * 0x8000_0000_0000_0000)
            by (nonlinear_arith)
            requires
                0 < b < 0x1_0000_0000,
                0 < pow2(drop as nat) <= 0x8000_0000_0000_0000,
        ;
    }
    let d: u128 = (b as u128) * step;
    proof {
        lemma_div_denominator(n as int, b as int, step as int);
        lemma_kept_bits(whole as nat, drop as nat);
        assert(n as nat / d as nat == whole as nat / step as nat);
        lemma_nearest_ties_even_error(n as nat, d as nat);
    }
    let significand: u128 = divide_ties_even(n, d);
    GridValue { significand: significand as u64, shift: drop }
}

/// Computes the binary64 product of a positive integer with a grid value.
pub fn multiply(k: u32, x: GridValue) -> (p: GridValue)
    requires
        k > 0,
        x.normal(),
        x.shift <= 63,
    ensures
        p.value() == product(k as nat, x.value()),
        p.normal(),
        p.shift <= x.shift + 33,
{
    proof {
        lemma_grid_powers();
        assert(0x10_0000_0000_0000 <= (k as nat) * (x.significand as nat)
            <= 0xffff_ffff * 0x20_0000_0000_0000) by (nonlinear_arith)
            requires
                0 < k <= 0xffff_ffff,
                0x10_0000_0000_0000 <= x.significand <= 0x20_0000_0000_0000,
        ;
    }
    let exact: u128 = (k as u128) * (x.significand as u128);
    let len: u32 = bit_length_of(exact);
    proof {
        lemma_bit_length_unique(0x10_0000_0000_0000, 53);
        lemma_bit_length_monotonic(0x10_0000_0000_0000, exact as nat);
        lemma_pow2_adds(64, 21);
        lemma_pow2_adds(64, 22);
        lemma2_to64();
        lemma_pow2_unfold(86);
        lemma_bit_length_unique((pow2(86) - 1) as nat, 86);
        lemma_bit_length_monotonic(exact as nat, (pow2(86) - 1) as nat);
    }
    let drop: u32 = len - PRECISION;
    let step: u128 = two_to(drop);
    proof {
        lemma_pow2_pos(drop as nat);
        lemma_kept_bits(exact as nat, drop as nat);
        lemma_nearest_ties_even_error(exact as nat, step as nat);
    }
    let significand: u128 = divide_ties_even(exact, step);
    let p = GridValue { significand: significand as u64, shift: x.shift + drop };
    proof {
        let t: nat = x.shift as nat;
        let whole: nat = (k as nat) * x.value();
        assert(whole == exact as nat * pow2(t)) by {
            lemma_mul_is_associative(k as int, x.significand as int, pow2(t) as int);
        }
        lemma_div_basics_2(whole as int);
        lemma_bit_length_shifted(exact as nat, t);
        assert(excess_bits(whole, 1) == drop as nat + t);
        lemma_pow2_adds(drop as nat, t);
        lemma_pow2_pos(t);
        lemma_nearest_ties_even_scaled(exact as nat, step as nat, pow2(t));
        assert(1 * pow2(drop as nat + t) == step as nat * pow2(t));
        assert(p.value() == significand as nat * pow2(drop as nat + t)) by {
            lemma_mul_is_commutative(pow2(drop as nat) as int, pow2(t) as int);
        }
    }
    p
}

/// Computes the integer nearest to a grid value, with ties away from zero.
pub fn round_to_integer(x: GridValue) -> (nearest: u128)
    requires
        x.significand <= 0x20_0000_0000_0000,
        x.shift <= 96,
    ensures
        nearest == nearest_ties_away(x.value()),
{
    proof {
        lemma_grid_powers();
    }
    if x.shift >= FRACTION_BITS {
        let up: u32 = x.shift - FRACTION_BITS;
        let step: u128 = two_to(up);
        proof {
            lemma2_to64();
            if up < 12 {
                lemma_pow2_strictly_increases(up as nat, 12);
            }
            assert((x.significand as nat) * pow2(up as nat) <= 0x20_0000_0000_0000 * 0x1000)
                by (nonlinear_arith)
                requires
                    x.significand <= 0x20_0000_0000_0000,
                    pow2(up as nat) <= 0x1000,
            ;
            let whole: nat = (x.significand as nat) * pow2(up as nat);
            lemma_pow2_adds(up as nat, 84);
            lemma_mul_is_associative(x.significand as int, pow2(up as nat) as int, pow2(84) as int);
            assert(x.value() == whole * pow2(84));
            lemma_fundamental_div_mod_converse(
                (x.value() + pow2(83)) as int,
                pow2(84) as int,
                whole as int,
                pow2(83) as int,
            );
        }
        (x.significand as u128) * step
    } else {
        let down: u32 = FRACTION_BITS - x.shift;
        let half: u128 = two_to(down - 1);
        proof {
            let t: nat = x.shift as nat;
            if down - 1 < 83 {
                lemma_pow2_strictly_increases((down - 1) as nat, 83);
            }
            lemma_pow2_unfold(down as nat);
            lemma_pow2_adds((down - 1) as nat, t);
            lemma_pow2_adds(down as nat, t);
            lemma_pow2_pos(t);
            lemma_pow2_pos(down as nat);
            let top: nat = x.significand as nat + half as nat;
            assert(x.value() + pow2(83) == pow2(t) * top) by (nonlinear_arith)
                requires
                    x.value() == (x.significand as nat) * pow2(t),
                    pow2(83) == (half as nat) * pow2(t),
                    top == x.significand as nat + half as nat,
            ;
            assert(pow2(84) == pow2(t) * (half as nat * 2)) by (nonlinear_arith)
                requires
                    pow2(84) == pow2(down as nat) * pow2(t),
                    pow2(down as nat) == 2 * (half as nat),
            ;
            lemma_div_multiples_vanish_quotient(pow2(t) as int, top as int, (half as nat * 2) as int);
        }
        ((x.significand as u128) + half) / (half * 2)
    }
}

/// Rounding to precision moves a value by at most the fraction 2^-53 of
/// itself: both `r * d - n` and `n - r * d`, taken 2^53 times, stay within `n`.
pub proof fn lemma_round_to_precision_error(n: nat, d: nat)
    requires
        d > 0,
        bit_length(n / d) >= 53,
    ensures
        pow2(53) * (round_to_precision(n, d) * d - n) <= n,
        pow2(53) * (n - round_to_precision(n, d) * d) <= n,
        round_to_precision(n, d) >= pow2(52),
{
    lemma_grid_powers();
    let drop: nat = excess_bits(n, d);
    let step: nat = pow2(drop);
    let wide: nat = d * step;
    let near: nat = nearest_ties_even(n, wide);
    let whole: nat = n / d;
    lemma_pow2_pos(drop);
    lemma_mul_strictly_positive(d as int, step as int);
    lemma_nearest_ties_even_error(n, wide);
    lemma_div_denominator(n as int, d as int, step as int);
    lemma_kept_bits(whole, drop);
    assert(near >= 0x10_0000_0000_0000);
    lemma_fundamental_div_mod(n as int, wide as int);
    lemma_mod_bound(n as int, wide as int);
    assert(0x10_0000_0000_0000 * wide <= n) by (nonlinear_arith)
        requires
            n == wide * (n / wide) + n % wide,
            n % wide >= 0,
            n / wide >= 0x10_0000_0000_0000,
            wide > 0,
    ;
    let r: nat = round_to_precision(n, d);
    assert(r == near * step);
    assert(r * d == near * wide) by {
        lemma_mul_is_associative(near as int, step as int, d as int);
        lemma_mul_is_commutative(step as int, d as int);
    }
    assert(r >= pow2(52)) by (nonlinear_arith)
        requires
            r == near * step,
            near >= 0x10_0000_0000_0000,
            step >= 1,
            pow2(52) == 0x10_0000_0000_0000,
    ;
}

} // verus!
