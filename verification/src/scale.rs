//! The scale policy: from the size of a source image and a requested long
//! edge to the size of the target image.
//!
//! The requested long edge is raised to at least 1. Each side is multiplied by
//! the binary64 ratio of that long edge to the longer source side, rounded to
//! the nearest integer with ties away from zero, and held within 1 and the
//! largest `u32`. A target larger than the source is allowed.

use vstd::prelude::*;
use vstd::arithmetic::div_mod::{lemma_div_basics_2, lemma_fundamental_div_mod, lemma_mod_bound};
use vstd::arithmetic::power2::pow2;
use crate::binary64::{
    divide, lemma_bit_length_monotonic, lemma_bit_length_unique, lemma_grid_powers,
    lemma_quotient_length, lemma_round_to_precision_error, multiply, nearest_ties_away, product,
    quotient, round_to_integer, GridValue,
};

verus! {

/// The size of the target image, and whether it differs from the source size.
#[derive(Clone, Copy, Debug, PartialEq, Eq, Structural)]
pub struct TargetGeometry {
    pub width: u32,
    pub height: u32,
    pub resized: bool,
}

/// The requested long edge after it has been raised to at least 1.
pub open spec fn effective_long_edge(long_edge: nat) -> nat {
    if long_edge < 1 {
        1
    } else {
        long_edge
    }
}

/// The longer of the two source sides.
pub open spec fn longest_side(width: nat, height: nat) -> nat {
    if width >= height {
        width
    } else {
        height
    }
}

/// A whole number held within 1 and the largest `u32`.
pub open spec fn held_in_range(n: nat) -> nat {
    if n < 1 {
        1
    } else if n > u32::MAX {
        u32::MAX as nat
    } else {
        n
    }
}

/// The length of one target side: `side` times the binary64 ratio
/// `long_edge / longest`, rounded in binary64, then rounded to the nearest
/// integer with ties away from zero, then held in range.
pub open spec fn scaled_side(side: nat, long_edge: nat, longest: nat) -> nat {
    held_in_range(nearest_ties_away(product(side, quotient(long_edge, longest))))
}

/// The target geometry for a source of `width` by `height` pixels and a
/// requested long edge.
pub open spec fn target_of(width: nat, height: nat, long_edge: nat) -> TargetGeometry {
    let edge: nat = effective_long_edge(long_edge);
    let longest: nat = longest_side(width, height);
    let target_width: nat = scaled_side(width, edge, longest);
    let target_height: nat = scaled_side(height, edge, longest);
    TargetGeometry {
        width: target_width as u32,
        height: target_height as u32,
        resized: target_width != width || target_height != height,
    }
}

/// Whether `length` is the exact length `side * long_edge / longest` rounded to
/// a whole number of pixels. An exact length below one half gives 1. Any other
/// gives a neighbour within one half and the fraction 2^-20 of a pixel, so
/// that only a tie or a near tie can go either way.
pub open spec fn is_rounded_length(length: int, side: int, long_edge: int, longest: int) -> bool {
    let wanted: int = side * long_edge;
    let given: int = longest * length;
    if 2 * wanted < longest {
        length == 1
    } else {
        &&& 0x8_0000 * (2 * (given - wanted) - longest) <= longest
        &&& 0x8_0000 * (2 * (wanted - given) - longest) <= longest
    }
}

/// Before it is held in range, a scaled side differs from the exact product
/// `side * long_edge / longest` by less than one.
pub proof fn lemma_rounded_side_close(side: nat, long_edge: nat, longest: nat)
    requires
        0 < side <= longest < 0x1_0000_0000,
        0 < long_edge < 0x1_0000_0000,
    ensures
        ({
            let t: nat = nearest_ties_away(product(side, quotient(long_edge, longest)));
            &&& -(longest as int) < longest * t - side * long_edge < longest
            &&& 0x8_0000 * (2 * (longest * t - side * long_edge) - longest) <= longest
            &&& 0x8_0000 * (2 * (side * long_edge - longest * t) - longest) <= longest
        }),
{
    lemma_grid_powers();
    let unit: nat = pow2(84);
    let scaled_edge: nat = long_edge * unit;
    let ratio: nat = quotient(long_edge, longest);
    // The ratio, taken `longest` times, is within `long_edge * 2^31` of the
    // scaled edge.
    lemma_quotient_length(long_edge, longest);
    lemma_round_to_precision_error(scaled_edge, longest);
    let a: int = (ratio * longest) as int;
    let b: int = scaled_edge as int;
    assert(a - b <= long_edge * 0x8000_0000 && b - a <= long_edge * 0x8000_0000);
    // The rounded product is within the fraction 2^-53 of the exact product.
    let exact: nat = side * ratio;
    assert(exact >= 0x10_0000_0000_0000) by (nonlinear_arith)
        requires
            exact == side * ratio,
            side >= 1,
            ratio >= 0x10_0000_0000_0000,
    ;
    lemma_div_basics_2(exact as int);
    lemma_bit_length_unique(0x10_0000_0000_0000, 53);
    lemma_bit_length_monotonic(0x10_0000_0000_0000, exact);
    lemma_round_to_precision_error(exact, 1);
    let p: int = product(side, ratio) as int;
    let c: int = exact as int;
    assert(0x20_0000_0000_0000 * (p - c) <= c && 0x20_0000_0000_0000 * (c - p) <= c);
    // Both errors, taken `longest` times.
    let we: int = (side * long_edge) as int;
    let m: int = longest as int;
    assert(m * c == side * a) by (nonlinear_arith)
        requires
            c == side * ratio,
            a == ratio * longest,
            m == longest,
    ;
    assert(side * b == we * unit) by (nonlinear_arith)
        requires
            b == long_edge * unit,
            we == side * long_edge,
    ;
    assert(side * (a - b) <= we * 0x8000_0000 && side * (b - a) <= we * 0x8000_0000)
        by (nonlinear_arith)
        requires
            a - b <= long_edge * 0x8000_0000,
            b - a <= long_edge * 0x8000_0000,
            we == side * long_edge,
            side >= 1,
    ;
    assert(side * (a - b) == m * c - we * unit) by (nonlinear_arith)
        requires
            m * c == side * a,
            side * b == we * unit,
    ;
    let above: int = m * (p - c);
    let below: int = m * (c - p);
    assert(0x20_0000_0000_0000 * above <= m * c && 0x20_0000_0000_0000 * below <= m * c)
        by (nonlinear_arith)
        requires
            0x20_0000_0000_0000 * (p - c) <= c,
            0x20_0000_0000_0000 * (c - p) <= c,
            above == m * (p - c),
            below == m * (c - p),
            m >= 1,
    ;
    assert(above == -below) by (nonlinear_arith)
        requires
            above == m * (p - c),
            below == m * (c - p),
    ;
    assert(m * p == m * c + above) by (nonlinear_arith)
        requires
            above == m * (p - c),
    ;
    assert(we <= m * 0xffff_ffff) by (nonlinear_arith)
        requires
            we == side * long_edge,
            side <= m,
            0 < long_edge <= 0xffff_ffff,
            side >= 1,
    ;
    // The nearest integer is within half a unit of the rounded product.
    let t: nat = nearest_ties_away(product(side, ratio));
    lemma_fundamental_div_mod(p + pow2(83), unit as int);
    lemma_mod_bound(p + pow2(83), unit as int);
    let rest: int = (p + pow2(83)) % (unit as int);
    assert(unit * t + rest == p + pow2(83));
    let mt: int = m * t;
    assert(m * (unit * t + rest) == unit * mt + m * rest) by (nonlinear_arith)
        requires
            mt == m * t,
    ;
    assert(0 <= m * rest <= m * (unit - 1)) by (nonlinear_arith)
        requires
            0 <= rest <= unit - 1,
            m >= 1,
    ;
    assert(m * (p + 0x8_0000_0000_0000_0000_0000) == m * p + m * 0x8_0000_0000_0000_0000_0000)
        by (nonlinear_arith);
    assert(0x10_0000_0000_0000_0000_0000 * mt + m * rest == m * p + m
        * 0x8_0000_0000_0000_0000_0000);
    assert(m * c <= we * 0x10_0000_0000_0000_0000_0000 + we * 0x8000_0000);
    assert(side * (b - a) == we * unit - m * c) by (nonlinear_arith)
        requires
            m * c == side * a,
            side * b == we * unit,
    ;
    assert(m * c >= we * 0x10_0000_0000_0000_0000_0000 - we * 0x8000_0000);
    assert(above <= we * 0x8000_0000 + we);
    assert(below <= we * 0x8000_0000 + we);
    assert(mt < we + m);
    assert(mt > we - m);
    assert(0x8_0000 * (2 * (mt - we) - m) <= m);
    assert(0x8_0000 * (2 * (we - mt) - m) <= m);
}

/// A scaled side is at least 1, at most the long edge, and differs from the
/// exact product `side * long_edge / longest` by less than one.
pub proof fn lemma_scaled_side_close(side: nat, long_edge: nat, longest: nat)
    requires
        0 < side <= longest < 0x1_0000_0000,
        0 < long_edge < 0x1_0000_0000,
    ensures
        1 <= scaled_side(side, long_edge, longest) <= long_edge,
        -(longest as int) < longest * scaled_side(side, long_edge, longest) - side * long_edge
            < longest,
        is_rounded_length(
            scaled_side(side, long_edge, longest) as int,
            side as int,
            long_edge as int,
            longest as int,
        ),
{
    lemma_rounded_side_close(side, long_edge, longest);
    let t: nat = nearest_ties_away(product(side, quotient(long_edge, longest)));
    let m: int = longest as int;
    let we: int = (side * long_edge) as int;
    let mt: int = (longest * t) as int;
    assert(we >= 1 && we <= m * long_edge) by (nonlinear_arith)
        requires
            we == side * long_edge,
            1 <= side <= m,
            long_edge >= 1,
    ;
    assert(t <= long_edge) by (nonlinear_arith)
        requires
            mt == m * t,
            mt < we + m,
            we <= m * long_edge,
            m >= 1,
    ;
    let length: int = scaled_side(side, long_edge, longest) as int;
    let given: int = m * length;
    if t == 0 {
        assert(mt == 0) by (nonlinear_arith)
            requires
                mt == m * t,
                t == 0,
        ;
        assert(longest * 1 == m) by (nonlinear_arith)
            requires
                m == longest,
        ;
        assert(given == m) by (nonlinear_arith)
            requires
                given == m * length,
                length == 1,
        ;
    } else {
        assert(length == t);
        assert(given == mt);
        if t >= 2 {
            assert(mt >= 2 * m) by (nonlinear_arith)
                requires
                    mt == m * t,
                    t >= 2,
                    m >= 1,
            ;
        }
    }
    assert(is_rounded_length(length, side as int, long_edge as int, m));
}

/// Aspect ratio: with `m` the longer source side and `e` the effective long
/// edge, each target side is the source side times `e / m`, rounded to a whole
/// number and so less than one away from it, and the cross products of target
/// and source sides differ by less than the sum of the source sides.
pub proof fn lemma_aspect_ratio_kept(width: u32, height: u32, long_edge: u32)
    requires
        width > 0,
        height > 0,
    ensures
        ({
            let target = target_of(width as nat, height as nat, long_edge as nat);
            let m = longest_side(width as nat, height as nat) as int;
            let e = effective_long_edge(long_edge as nat) as int;
            &&& is_rounded_length(target.width as int, width as int, e, m)
            &&& is_rounded_length(target.height as int, height as int, e, m)
            &&& -m < m * target.width - width * e < m
            &&& -m < m * target.height - height * e < m
            &&& -(width + height) < target.width * height - target.height * width < width
                + height
        }),
{
    let m: nat = longest_side(width as nat, height as nat);
    let e: nat = effective_long_edge(long_edge as nat);
    lemma_scaled_side_close(width as nat, e, m);
    lemma_scaled_side_close(height as nat, e, m);
    let tw: int = scaled_side(width as nat, e, m) as int;
    let th: int = scaled_side(height as nat, e, m) as int;
    let w: int = width as int;
    let h: int = height as int;
    let dw: int = m * tw - w * e;
    let dh: int = m * th - h * e;
    assert(m * (tw * h - th * w) == dw * h - dh * w) by (nonlinear_arith)
        requires
            dw == m * tw - w * e,
            dh == m * th - h * e,
    ;
    assert(-(m * h) < dw * h < m * h) by (nonlinear_arith)
        requires
            -m < dw < m,
            h > 0,
    ;
    assert(-(m * w) < dh * w < m * w) by (nonlinear_arith)
        requires
            -m < dh < m,
            w > 0,
    ;
    let cross: int = tw * h - th * w;
    assert(-(w + h) < cross < w + h) by (nonlinear_arith)
        requires
            -(m * h) - m * w < m * cross < m * h + m * w,
            m > 0,
    ;
}

/// Long edge: the longer target side equals the effective long edge.
pub proof fn lemma_long_edge_met(width: u32, height: u32, long_edge: u32)
    requires
        width > 0,
        height > 0,
    ensures
        ({
            let target = target_of(width as nat, height as nat, long_edge as nat);
            &&& longest_side(target.width as nat, target.height as nat) == effective_long_edge(
                long_edge as nat,
            )
            &&& width >= height ==> target.width == effective_long_edge(long_edge as nat)
            &&& height >= width ==> target.height == effective_long_edge(long_edge as nat)
        }),
{
    let m: nat = longest_side(width as nat, height as nat);
    let e: nat = effective_long_edge(long_edge as nat);
    lemma_scaled_side_close(width as nat, e, m);
    lemma_scaled_side_close(height as nat, e, m);
    let s: int = scaled_side(m, e, m) as int;
    assert(s == e) by (nonlinear_arith)
        requires
            -(m as int) < m * s - m * e < m,
            m > 0,
    ;
}

/// No-op: when the requested long edge is the longer source side, the target
/// is the source size and nothing is resized.
pub proof fn lemma_same_size_kept(width: u32, height: u32)
    requires
        width > 0,
        height > 0,
    ensures
        target_of(
            width as nat,
            height as nat,
            longest_side(width as nat, height as nat),
        ) == (TargetGeometry { width, height, resized: false }),
{
    let m: nat = longest_side(width as nat, height as nat);
    lemma_scaled_side_close(width as nat, m, m);
    lemma_scaled_side_close(height as nat, m, m);
    let tw: int = scaled_side(width as nat, m, m) as int;
    let th: int = scaled_side(height as nat, m, m) as int;
    assert(tw == width) by (nonlinear_arith)
        requires
            -(m as int) < m * tw - width * m < m,
            m > 0,
    ;
    assert(th == height) by (nonlinear_arith)
        requires
            -(m as int) < m * th - height * m < m,
            m > 0,
    ;
}

/// A requested long edge of zero is served as a request for one.
pub proof fn lemma_zero_request_is_one(width: u32, height: u32)
    ensures
        target_of(width as nat, height as nat, 0) == target_of(width as nat, height as nat, 1),
{
}

/// Computes one target side from the source side and the scale ratio.
fn scale_side(side: u32, ratio: GridValue) -> (length: u32)
    requires
        side > 0,
        ratio.normal(),
        ratio.shift <= 63,
    ensures
        length == held_in_range(nearest_ties_away(product(side as nat, ratio.value()))),
{
    let nearest: u128 = round_to_integer(multiply(side, ratio));
    if nearest < 1 {
        1
    } else if nearest > 0xffff_ffff {
        u32::MAX
    } else {
        nearest as u32
    }
}

/// Computes the target geometry for a source image of `source_width` by
/// `source_height` pixels and a requested long edge.
pub fn compute_target(source_width: u32, source_height: u32, long_edge: u32) -> (target:
    TargetGeometry)
    requires
        source_width > 0,
        source_height > 0,
    ensures
        target == target_of(source_width as nat, source_height as nat, long_edge as nat),
        target.width >= 1,
        target.height >= 1,
        target.resized == (target.width != source_width || target.height != source_height),
        longest_side(target.width as nat, target.height as nat) == effective_long_edge(
            long_edge as nat,
        ),
        source_width >= source_height ==> {
            let e = effective_long_edge(long_edge as nat) as int;
            &&& target.width == e
            &&& is_rounded_length(
                target.height as int,
                source_height as int,
                e,
                source_width as int,
            )
        },
        source_height >= source_width ==> {
            let e = effective_long_edge(long_edge as nat) as int;
            &&& target.height == e
            &&& is_rounded_length(
                target.width as int,
                source_width as int,
                e,
                source_height as int,
            )
        },
        -(source_width + source_height) < target.width * source_height - target.height
            * source_width < source_width + source_height,
        long_edge == longest_side(source_width as nat, source_height as nat) ==> target.width
            == source_width && target.height == source_height && !target.resized,
{
    let edge: u32 = if long_edge < 1 {
        1
    } else {
        long_edge
    };
    let longest: u32 = if source_width >= source_height {
        source_width
    } else {
        source_height
    };
    let ratio = divide(edge, longest);
    let width: u32 = scale_side(source_width, ratio);
    let height: u32 = scale_side(source_height, ratio);
    proof {
        lemma_scaled_side_close(source_width as nat, edge as nat, longest as nat);
        lemma_scaled_side_close(source_height as nat, edge as nat, longest as nat);
        lemma_aspect_ratio_kept(source_width, source_height, long_edge);
        lemma_long_edge_met(source_width, source_height, long_edge);
        if long_edge == longest {
            lemma_same_size_kept(source_width, source_height);
        }
    }
    TargetGeometry { width, height, resized: width != source_width || height != source_height }
}

} // verus!
