use vstd::arithmetic::div_mod::{
    lemma_div_is_ordered, lemma_fundamental_div_mod, lemma_fundamental_div_mod_converse,
};
use vstd::prelude::*;

verus! {

/// The least significand of a number other than zero.
pub const LEAST_SIGNIFICAND: u64 = 0x10_0000_0000_0000;

/// Nanoseconds per second.
pub const NANOS_PER_SECOND: u64 = 1_000_000_000;

/// A number as a significand divided by a scale.
pub ghost struct Binary {
    pub significand: int,
    pub scale: int,
}

/// The integer nearest to `num / den`, the even one where two are.
pub open spec fn round_even(num: int, den: int) -> int {
    let floor = num / den;
    let rest = num % den;
    if 2 * rest < den || (2 * rest == den && floor % 2 == 0) {
        floor
    } else {
        floor + 1
    }
}

/// The first of `scale`, `2 * scale`, `4 * scale` and so on that brings
/// `num / den` to the least significand.
pub open spec fn scale_for(num: int, den: int, scale: int) -> int
    decreases
            if LEAST_SIGNIFICAND * den > num * scale {
                LEAST_SIGNIFICAND * den - num * scale
            } else {
                0
            },
{
    if num <= 0 || den <= 0 || scale <= 0 || num * scale >= LEAST_SIGNIFICAND * den {
        scale
    } else {
        proof {
            assert(num * (2 * scale) > num * scale) by (nonlinear_arith)
                requires
                    num > 0,
                    scale > 0,
            ;
        }
        scale_for(num, den, 2 * scale)
    }
}

/// `num / den` in double precision, for numbers from zero to below twice the
/// least significand.
pub open spec fn nearest(num: int, den: int) -> Binary {
    if num == 0 {
        Binary { significand: 0, scale: 1 }
    } else {
        let scale = scale_for(num, den, 1);
        Binary { significand: round_even(num * scale, den), scale }
    }
}

/// A span of nanoseconds as seconds in double precision: the part of a second
/// is rounded, and again its sum with the whole seconds.
pub open spec fn seconds(nanos: int) -> Binary {
    let part = nearest(nanos % (NANOS_PER_SECOND as int), NANOS_PER_SECOND as int);
    nearest((nanos / (NANOS_PER_SECOND as int)) * part.scale + part.significand, part.scale)
}

/// The whole part of a product in double precision.
pub open spec fn whole_product(x: Binary, factor: int) -> int {
    let product = nearest(x.significand * factor, x.scale);
    product.significand / product.scale
}

proof fn lemma_round_even_scales(num: int, den: int, k: int)
    requires
        den > 0,
        k > 0,
    ensures
        round_even(num * k, den * k) == round_even(num, den),
{
    let q = num / den;
    let r = num % den;
    lemma_fundamental_div_mod(num, den);
    assert(num * k == q * (den * k) + r * k && 0 <= r * k < den * k && den * k > 0)
        by (nonlinear_arith)
        requires
            num == den * q + r,
            0 <= r < den,
            k > 0,
    ;
    lemma_fundamental_div_mod_converse(num * k, den * k, q, r * k);
    assert((2 * (r * k) < den * k) == (2 * r < den)) by (nonlinear_arith)
        requires
            k > 0,
    ;
    assert((2 * (r * k) == den * k) == (2 * r == den)) by (nonlinear_arith)
        requires
            k > 0,
    ;
}

proof fn lemma_round_even_exact(whole: int, den: int)
    requires
        den > 0,
    ensures
        round_even(whole * den, den) == whole,
{
    lemma_fundamental_div_mod_converse(whole * den, den, whole, 0);
}

/// Rounding keeps the order of fractions.
proof fn lemma_round_even_ordered(num1: int, den1: int, num2: int, den2: int)
    requires
        den1 > 0,
        den2 > 0,
        num1 * den2 <= num2 * den1,
    ensures
        round_even(num1, den1) <= round_even(num2, den2),
{
    lemma_round_even_scales(num1, den1, den2);
    lemma_round_even_scales(num2, den2, den1);
    let den = den1 * den2;
    assert(den > 0 && den2 * den1 == den) by (nonlinear_arith)
        requires
            den1 > 0,
            den2 > 0,
            den == den1 * den2,
    ;
    let a = num1 * den2;
    let b = num2 * den1;
    lemma_div_is_ordered(a, b, den);
    lemma_fundamental_div_mod(a, den);
    lemma_fundamental_div_mod(b, den);
}

proof fn lemma_scale_fits(num: int, den: int, scale: int) -> (k: int)
    requires
        num > 0,
        den > 0,
        scale > 0,
        num * scale < 2 * LEAST_SIGNIFICAND * den,
    ensures
        k >= 1,
        num * scale >= LEAST_SIGNIFICAND * den ==> k == 1,
        scale_for(num, den, scale) == scale * k,
        scale_for(num, den, scale) >= scale,
        LEAST_SIGNIFICAND * den <= num * scale_for(num, den, scale) < 2 * LEAST_SIGNIFICAND * den,
    decreases
            if LEAST_SIGNIFICAND * den > num * scale {
                LEAST_SIGNIFICAND * den - num * scale
            } else {
                0
            },
{
    if num * scale >= LEAST_SIGNIFICAND * den {
        1
    } else {
        assert(num * (2 * scale) == 2 * (num * scale)) by (nonlinear_arith);
        assert(2 * LEAST_SIGNIFICAND * den == 2 * (LEAST_SIGNIFICAND * den)) by (nonlinear_arith);
        assert(num * scale > 0) by (nonlinear_arith)
            requires
                num > 0,
                scale > 0,
        ;
        let k = lemma_scale_fits(num, den, 2 * scale);
        assert((2 * scale) * k == scale * (2 * k)) by (nonlinear_arith);
        2 * k
    }
}

/// Of two fractions the smaller one has the same scale, or a larger one which
/// is a multiple of the other's.
proof fn lemma_scales_compare(num1: int, den1: int, num2: int, den2: int, scale: int) -> (k: int)
    requires
        num1 > 0,
        den1 > 0,
        num2 > 0,
        den2 > 0,
        scale > 0,
        num1 * den2 <= num2 * den1,
        num2 * scale < 2 * LEAST_SIGNIFICAND * den2,
    ensures
        k >= 1,
        scale_for(num1, den1, scale) == scale_for(num2, den2, scale) * k,
        k > 1 ==> num1 * scale_for(num2, den2, scale) < LEAST_SIGNIFICAND * den1,
    decreases
            if LEAST_SIGNIFICAND * den2 > num2 * scale {
                LEAST_SIGNIFICAND * den2 - num2 * scale
            } else {
                0
            },
{
    assert(num1 * scale < 2 * LEAST_SIGNIFICAND * den1 && (num2 * scale < LEAST_SIGNIFICAND * den2
        ==> num1 * scale < LEAST_SIGNIFICAND * den1)) by {
        let limit = LEAST_SIGNIFICAND as int;
        lemma_below(num1, den1, num2, den2, scale, 2 * limit);
        if num2 * scale < limit * den2 {
            lemma_below(num1, den1, num2, den2, scale, limit);
        }
    }
    if num2 * scale >= LEAST_SIGNIFICAND * den2 {
        lemma_scale_fits(num1, den1, scale)
    } else {
        assert(num2 * (2 * scale) == 2 * (num2 * scale)) by (nonlinear_arith);
        assert(2 * LEAST_SIGNIFICAND * den2 == 2 * (LEAST_SIGNIFICAND * den2)) by (nonlinear_arith);
        assert(num2 * scale > 0) by (nonlinear_arith)
            requires
                num2 > 0,
                scale > 0,
        ;
        lemma_scales_compare(num1, den1, num2, den2, 2 * scale)
    }
}

/// What a fraction stays below, a smaller one stays below too.
proof fn lemma_below(num1: int, den1: int, num2: int, den2: int, scale: int, limit: int)
    requires
        den1 > 0,
        den2 > 0,
        scale > 0,
        num1 * den2 <= num2 * den1,
        num2 * scale < limit * den2,
    ensures
        num1 * scale < limit * den1,
{
    assert((num1 * scale) * den2 < (limit * den1) * den2) by {
        assert((num1 * scale) * den2 == (num1 * den2) * scale) by (nonlinear_arith);
        assert((num1 * den2) * scale <= (num2 * den1) * scale) by (nonlinear_arith)
            requires
                num1 * den2 <= num2 * den1,
                scale > 0,
        ;
        assert((num2 * den1) * scale == (num2 * scale) * den1) by (nonlinear_arith);
        assert((num2 * scale) * den1 < (limit * den2) * den1) by (nonlinear_arith)
            requires
                num2 * scale < limit * den2,
                den1 > 0,
        ;
        assert((limit * den2) * den1 == (limit * den1) * den2) by (nonlinear_arith);
    }
    assert(num1 * scale < limit * den1) by (nonlinear_arith)
        requires
            (num1 * scale) * den2 < (limit * den1) * den2,
            den2 > 0,
    ;
}

/// The significand of a number other than zero is between its limits.
proof fn lemma_nearest_in_range(num: int, den: int)
    requires
        num > 0,
        den > 0,
        num < 2 * LEAST_SIGNIFICAND * den,
    ensures
        LEAST_SIGNIFICAND <= nearest(num, den).significand <= 2 * LEAST_SIGNIFICAND,
        nearest(num, den).scale >= 1,
        num * nearest(num, den).scale < 2 * LEAST_SIGNIFICAND * den,
{
    lemma_scale_fits(num, den, 1);
    let s = scale_for(num, den, 1);
    let least = LEAST_SIGNIFICAND as int;
    lemma_round_even_exact(least, den);
    lemma_round_even_exact(2 * least, den);
    assert((least * den) * den <= (num * s) * den && (num * s) * den <= (2 * least * den) * den)
        by (nonlinear_arith)
        requires
            least * den <= num * s < 2 * least * den,
            den > 0,
    ;
    lemma_round_even_ordered(least * den, den, num * s, den);
    lemma_round_even_ordered(num * s, den, 2 * least * den, den);
}

/// Double precision keeps the order of numbers.
proof fn lemma_nearest_ordered(num1: int, den1: int, num2: int, den2: int)
    requires
        num1 >= 0,
        den1 > 0,
        num2 >= 0,
        den2 > 0,
        num1 * den2 <= num2 * den1,
        num2 < 2 * LEAST_SIGNIFICAND * den2,
    ensures
        nearest(num1, den1).significand * nearest(num2, den2).scale <= nearest(
            num2,
            den2,
        ).significand * nearest(num1, den1).scale,
{
    let a = nearest(num1, den1);
    let b = nearest(num2, den2);
    let least = LEAST_SIGNIFICAND as int;
    if num1 == 0 {
        if num2 > 0 {
            lemma_nearest_in_range(num2, den2);
        }
    } else {
        assert(num2 > 0) by (nonlinear_arith)
            requires
                num1 > 0,
                den2 > 0,
                den1 > 0,
                num1 * den2 <= num2 * den1,
        ;
        lemma_below(num1, den1, num2, den2, 1, 2 * least);
        lemma_nearest_in_range(num1, den1);
        lemma_nearest_in_range(num2, den2);
        let k = lemma_scales_compare(num1, den1, num2, den2, 1);
        if k == 1 {
            let s = b.scale;
            assert((num1 * s) * den2 <= (num2 * s) * den1) by (nonlinear_arith)
                requires
                    num1 * den2 <= num2 * den1,
                    s >= 1,
            ;
            lemma_round_even_ordered(num1 * s, den1, num2 * s, den2);
            assert(a.significand * s <= b.significand * s) by (nonlinear_arith)
                requires
                    a.significand <= b.significand,
                    s >= 1,
            ;
        } else {
            let s = b.scale;
            assert((num1 * (s * k)) * den1 <= (least * k * den1) * den1) by (nonlinear_arith)
                requires
                    num1 * s < least * den1,
                    k >= 1,
                    den1 > 0,
            ;
            lemma_round_even_exact(least * k, den1);
            lemma_round_even_ordered(num1 * (s * k), den1, least * k * den1, den1);
            assert(a.significand * s <= b.significand * (s * k)) by (nonlinear_arith)
                requires
                    a.significand <= least * k,
                    least <= b.significand,
                    s >= 1,
                    k >= 1,
            ;
        }
    }
}

/// Whole numbers are kept exactly.
proof fn lemma_nearest_exact(whole: int, den: int)
    requires
        0 <= whole < 2 * LEAST_SIGNIFICAND,
        den > 0,
    ensures
        nearest(whole * den, den).scale >= 1,
        nearest(whole * den, den).significand == whole * nearest(whole * den, den).scale,
{
    if whole == 0 {
        assert(whole * den == 0) by (nonlinear_arith)
            requires
                whole == 0,
        ;
    } else {
        assert(0 < whole * den < 2 * LEAST_SIGNIFICAND * den) by (nonlinear_arith)
            requires
                0 < whole < 2 * LEAST_SIGNIFICAND,
                den > 0,
        ;
        lemma_nearest_in_range(whole * den, den);
        let s = nearest(whole * den, den).scale;
        assert((whole * den) * s == (whole * s) * den) by (nonlinear_arith);
        lemma_round_even_exact(whole * s, den);
    }
}

/// A part of a second is at most one, and its scale is bounded.
proof fn lemma_part_in_range(nanos: int)
    requires
        0 <= nanos < NANOS_PER_SECOND,
    ensures
        ({
            let part = nearest(nanos, NANOS_PER_SECOND as int);
            &&& 0 <= part.significand <= part.scale
            &&& 1 <= part.scale < 0x8_0000_0000_0000_0000_0000
            &&& part.significand >= LEAST_SIGNIFICAND || (part.significand == 0 && part.scale == 1)
        }),
{
    let part = nearest(nanos, NANOS_PER_SECOND as int);
    if nanos > 0 {
        lemma_nearest_in_range(nanos, NANOS_PER_SECOND as int);
        lemma_nearest_ordered(nanos, NANOS_PER_SECOND as int, 1, 1);
        lemma_nearest_exact(1, 1);
        let one = nearest(1, 1);
        assert(part.significand <= part.scale) by (nonlinear_arith)
            requires
                part.significand * one.scale <= one.significand * part.scale,
                one.significand == one.scale,
                one.scale >= 1,
        ;
        assert(part.scale <= nanos * part.scale) by (nonlinear_arith)
            requires
                nanos >= 1,
                part.scale >= 1,
        ;
    }
}

/// What [`seconds`] rounds is in range, and so is its result.
proof fn lemma_seconds_in_range(nanos: int)
    requires
        0 <= nanos <= u64::MAX,
    ensures
        ({
            let whole = nanos / (NANOS_PER_SECOND as int);
            let part = nearest(nanos % (NANOS_PER_SECOND as int), NANOS_PER_SECOND as int);
            let r = seconds(nanos);
            &&& 0 <= whole * part.scale + part.significand <= 0x8_0000_0000 * part.scale
            &&& 0x8_0000_0000 * part.scale < 2 * LEAST_SIGNIFICAND * part.scale
            &&& 0 <= r.significand <= 0x8_0000_0000 * r.scale
            &&& r.significand <= 2 * LEAST_SIGNIFICAND
            &&& 1 <= r.scale < 0x10_0000_0000_0000_0000_0000
            &&& r.significand >= LEAST_SIGNIFICAND || (r.significand == 0 && r.scale == 1)
        }),
{
    let whole = nanos / (NANOS_PER_SECOND as int);
    let rest = nanos % (NANOS_PER_SECOND as int);
    let part = nearest(rest, NANOS_PER_SECOND as int);
    let r = seconds(nanos);
    lemma_part_in_range(rest);
    let num = whole * part.scale + part.significand;
    assert(0 <= num <= 0x8_0000_0000 * part.scale && 0x8_0000_0000 * part.scale < 2
        * LEAST_SIGNIFICAND * part.scale) by (nonlinear_arith)
        requires
            num == whole * part.scale + part.significand,
            0 <= whole <= 0x7_0000_0000,
            0 <= part.significand <= part.scale,
            part.scale >= 1,
    ;
    lemma_nearest_ordered(num, part.scale, 0x8_0000_0000, 1);
    lemma_nearest_exact(0x8_0000_0000, 1);
    let limit = nearest(0x8_0000_0000, 1);
    if num > 0 {
        lemma_nearest_in_range(num, part.scale);
        if part.significand > 0 {
            assert(r.scale < 2 * part.scale) by (nonlinear_arith)
                requires
                    num * r.scale < 2 * LEAST_SIGNIFICAND * part.scale,
                    num >= LEAST_SIGNIFICAND,
                    r.scale >= 1,
            ;
        } else {
            assert(r.scale <= num * r.scale) by (nonlinear_arith)
                requires
                    num >= 1,
                    r.scale >= 1,
            ;
        }
    }
    assert(r.significand <= 0x8_0000_0000 * r.scale) by (nonlinear_arith)
        requires
            r.significand * limit.scale <= limit.significand * r.scale,
            limit.significand == 0x8_0000_0000 * limit.scale,
            limit.scale >= 1,
    ;
}

/// A longer span is not fewer seconds.
pub proof fn law_seconds_are_ordered(nanos: u64, more: u64)
    requires
        nanos <= more,
    ensures
        seconds(nanos as int).significand * seconds(more as int).scale <= seconds(
            more as int,
        ).significand * seconds(nanos as int).scale,
{
    let second = NANOS_PER_SECOND as int;
    let (w1, w2) = (nanos as int / second, more as int / second);
    let (n1, n2) = (nanos as int % second, more as int % second);
    let (p1, p2) = (nearest(n1, second), nearest(n2, second));
    lemma_part_in_range(n1);
    lemma_part_in_range(n2);
    lemma_seconds_in_range(nanos as int);
    lemma_seconds_in_range(more as int);
    let num1 = w1 * p1.scale + p1.significand;
    let num2 = w2 * p2.scale + p2.significand;
    if w1 == w2 {
        lemma_nearest_ordered(n1, second, n2, second);
        assert(num1 * p2.scale <= num2 * p1.scale) by (nonlinear_arith)
            requires
                num1 == w1 * p1.scale + p1.significand,
                num2 == w1 * p2.scale + p2.significand,
                p1.significand * p2.scale <= p2.significand * p1.scale,
        ;
    } else {
        assert(w1 + 1 <= w2);
        assert(num1 * p2.scale <= num2 * p1.scale) by (nonlinear_arith)
            requires
                num1 == w1 * p1.scale + p1.significand,
                num2 == w2 * p2.scale + p2.significand,
                0 <= p1.significand <= p1.scale,
                0 <= p2.significand,
                p1.scale >= 1,
                p2.scale >= 1,
                0 <= w1,
                w1 + 1 <= w2,
        ;
    }
    lemma_nearest_ordered(num1, p1.scale, num2, p2.scale);
}

/// Whole seconds are kept exactly, and so are their products with whole
/// numbers.
pub proof fn law_whole_seconds_are_exact(whole: int, factor: int)
    requires
        0 <= whole,
        whole * NANOS_PER_SECOND <= u64::MAX,
        0 < factor,
        whole * factor < 2 * LEAST_SIGNIFICAND,
    ensures
        seconds(whole * NANOS_PER_SECOND).significand == whole * seconds(
            whole * NANOS_PER_SECOND,
        ).scale,
        whole_product(seconds(whole * NANOS_PER_SECOND), factor) == whole * factor,
{
    let nanos = whole * NANOS_PER_SECOND;
    lemma_nearest_exact(whole, 1);
    let x = seconds(nanos);
    assert(nanos / (NANOS_PER_SECOND as int) == whole && nanos % (NANOS_PER_SECOND as int) == 0);
    assert(x == nearest(whole * 1, 1));
    assert(x.significand * factor == (whole * factor) * x.scale) by (nonlinear_arith)
        requires
            x.significand == whole * x.scale,
    ;
    assert(whole * factor >= 0) by (nonlinear_arith)
        requires
            whole >= 0,
            factor > 0,
    ;
    lemma_nearest_exact(whole * factor, x.scale);
    let product = nearest(x.significand * factor, x.scale);
    lemma_fundamental_div_mod_converse(
        product.significand,
        product.scale,
        whole * factor,
        0,
    );
}

/// A longer span has no smaller product.
pub proof fn law_products_are_ordered(nanos: u64, more: u64, factor: int)
    requires
        nanos <= more,
        0 < factor <= 100_000,
    ensures
        0 <= whole_product(seconds(nanos as int), factor) <= whole_product(
            seconds(more as int),
            factor,
        ) <= 2 * LEAST_SIGNIFICAND,
{
    let (x, y) = (seconds(nanos as int), seconds(more as int));
    law_seconds_are_ordered(nanos, more);
    lemma_seconds_in_range(nanos as int);
    lemma_seconds_in_range(more as int);
    let (num1, num2) = (x.significand * factor, y.significand * factor);
    assert(0 <= num1 && 0 <= num2 && num1 * y.scale <= num2 * x.scale) by (nonlinear_arith)
        requires
            num1 == x.significand * factor,
            num2 == y.significand * factor,
            0 <= x.significand,
            0 <= y.significand,
            x.significand * y.scale <= y.significand * x.scale,
            0 < factor,
    ;
    assert(num2 < 2 * LEAST_SIGNIFICAND * y.scale) by (nonlinear_arith)
        requires
            num2 == y.significand * factor,
            y.significand <= 0x8_0000_0000 * y.scale,
            0 < factor <= 100_000,
            y.scale >= 1,
    ;
    lemma_nearest_ordered(num1, x.scale, num2, y.scale);
    let (a, b) = (nearest(num1, x.scale), nearest(num2, y.scale));
    lemma_below(num1, x.scale, num2, y.scale, 1, 2 * LEAST_SIGNIFICAND as int);
    if num1 > 0 {
        lemma_nearest_in_range(num1, x.scale);
    }
    if num2 > 0 {
        lemma_nearest_in_range(num2, y.scale);
    }
    lemma_whole_parts_ordered(a, b);
}

/// The whole part of a number is not more than that of a larger one, nor than
/// its significand.
proof fn lemma_whole_parts_ordered(a: Binary, b: Binary)
    requires
        0 <= a.significand,
        0 <= b.significand,
        a.scale >= 1,
        b.scale >= 1,
        a.significand * b.scale <= b.significand * a.scale,
    ensures
        0 <= a.significand / a.scale <= b.significand / b.scale <= b.significand,
{
    let (p, q) = (a.significand / a.scale, b.significand / b.scale);
    lemma_fundamental_div_mod(a.significand, a.scale);
    lemma_fundamental_div_mod(b.significand, b.scale);
    assert(0 <= p && q <= b.significand) by (nonlinear_arith)
        requires
            a.significand == a.scale * p + a.significand % a.scale,
            a.significand % a.scale < a.scale,
            b.significand == b.scale * q + b.significand % b.scale,
            0 <= b.significand % b.scale,
            0 <= a.significand,
            0 <= b.significand,
            a.scale >= 1,
            b.scale >= 1,
    ;
    assert(p <= q) by (nonlinear_arith)
        requires
            a.significand == a.scale * p + a.significand % a.scale,
            0 <= a.significand % a.scale,
            b.significand == b.scale * q + b.significand % b.scale,
            b.significand % b.scale < b.scale,
            a.significand * b.scale <= b.significand * a.scale,
            a.scale >= 1,
            b.scale >= 1,
    ;
}

/// Rounding changes a number by at most one part in twice the least
/// significand.
proof fn lemma_nearest_is_close(num: int, den: int)
    requires
        num >= 0,
        den > 0,
        num < 2 * LEAST_SIGNIFICAND * den,
    ensures
        ({
            let r = nearest(num, den);
            let error = r.significand * den - num * r.scale;
            &&& 2 * LEAST_SIGNIFICAND * error <= num * r.scale
            &&& -(num * r.scale) <= 2 * LEAST_SIGNIFICAND * error
        }),
{
    if num > 0 {
        lemma_scale_fits(num, den, 1);
        let r = nearest(num, den);
        let x = num * r.scale;
        lemma_fundamental_div_mod(x, den);
        let floor = x / den;
        let rest = x % den;
        let error = r.significand * den - x;
        assert(2 * error <= den && -den <= 2 * error) by {
            if r.significand == floor {
                assert(error == -rest) by (nonlinear_arith)
                    requires
                        error == floor * den - x,
                        x == den * floor + rest,
                ;
            } else {
                assert(error == den - rest) by (nonlinear_arith)
                    requires
                        error == (floor + 1) * den - x,
                        x == den * floor + rest,
                ;
            }
        }
        let least = LEAST_SIGNIFICAND as int;
        assert(2 * least * error <= least * den && -(least * den) <= 2 * least * error)
            by (nonlinear_arith)
            requires
                2 * error <= den,
                -den <= 2 * error,
                least > 0,
        ;
    } else {
        let r = nearest(num, den);
        assert(r.significand * den == 0 && num * r.scale == 0) by (nonlinear_arith)
            requires
                r.significand == 0,
                num == 0,
        ;
    }
}

/// The product is less than one away from the exact one.
pub proof fn law_products_are_close(nanos: u64, factor: int)
    requires
        0 < factor <= 100_000,
    ensures
        ({
            let exact = nanos * factor / (NANOS_PER_SECOND as int);
            exact - 1 <= whole_product(seconds(nanos as int), factor) <= exact + 1
        }),
{
    let second = NANOS_PER_SECOND as int;
    let whole = nanos as int / second;
    let rest = nanos as int % second;
    let part = nearest(rest, second);
    let num = whole * part.scale + part.significand;
    let secs = seconds(nanos as int);
    let product = nearest(secs.significand * factor, secs.scale);
    lemma_part_in_range(rest);
    lemma_seconds_in_range(nanos as int);
    assert(0 <= secs.significand * factor < 2 * LEAST_SIGNIFICAND * secs.scale)
        by (nonlinear_arith)
        requires
            0 <= secs.significand <= 0x8_0000_0000 * secs.scale,
            0 < factor <= 100_000,
            secs.scale >= 1,
    ;
    lemma_nearest_is_close(rest, second);
    lemma_nearest_is_close(num, part.scale);
    lemma_nearest_is_close(secs.significand * factor, secs.scale);
    if secs.significand * factor > 0 {
        lemma_nearest_in_range(secs.significand * factor, secs.scale);
    }
    lemma_errors_add_up(whole, rest, factor, part, secs, product);
    let off = product.significand * second - nanos * factor * product.scale;
    let ticks = product.significand / product.scale;
    let exact = nanos * factor / second;
    lemma_fundamental_div_mod(product.significand, product.scale);
    lemma_fundamental_div_mod(nanos * factor, second);
    assert(ticks < exact + 2) by (nonlinear_arith)
        requires
            off < second * product.scale,
            off == product.significand * second - nanos * factor * product.scale,
            product.significand == product.scale * ticks + product.significand % product.scale,
            0 <= product.significand % product.scale,
            nanos * factor == second * exact + (nanos * factor) % second,
            (nanos * factor) % second < second,
            second > 0,
            product.scale >= 1,
    ;
    assert(exact < ticks + 2) by (nonlinear_arith)
        requires
            -(second * product.scale) < off,
            off == product.significand * second - nanos * factor * product.scale,
            product.significand == product.scale * ticks + product.significand % product.scale,
            product.significand % product.scale < product.scale,
            nanos * factor == second * exact + (nanos * factor) % second,
            0 <= (nanos * factor) % second,
            second > 0,
            product.scale >= 1,
    ;
}

/// The errors of the three roundings together stay below one.
proof fn lemma_errors_add_up(
    whole: int,
    rest: int,
    factor: int,
    part: Binary,
    secs: Binary,
    product: Binary,
)
    requires
        0 <= whole,
        0 <= rest < NANOS_PER_SECOND,
        0 < factor <= 100_000,
        part.scale >= 1,
        secs.scale >= 1,
        product.scale >= 1,
        0 <= whole * part.scale + part.significand <= 0x8_0000_0000 * part.scale,
        0 <= secs.significand <= 0x8_0000_0000 * secs.scale,
        ({
            let error = part.significand * NANOS_PER_SECOND - rest * part.scale;
            &&& 2 * LEAST_SIGNIFICAND * error <= rest * part.scale
            &&& -(rest * part.scale) <= 2 * LEAST_SIGNIFICAND * error
        }),
        ({
            let num = whole * part.scale + part.significand;
            let error = secs.significand * part.scale - num * secs.scale;
            &&& 2 * LEAST_SIGNIFICAND * error <= num * secs.scale
            &&& -(num * secs.scale) <= 2 * LEAST_SIGNIFICAND * error
        }),
        ({
            let num = secs.significand * factor;
            let error = product.significand * secs.scale - num * product.scale;
            &&& 2 * LEAST_SIGNIFICAND * error <= num * product.scale
            &&& -(num * product.scale) <= 2 * LEAST_SIGNIFICAND * error
        }),
    ensures
        ({
            let nanos = whole * NANOS_PER_SECOND + rest;
            let off = product.significand * NANOS_PER_SECOND - nanos * factor * product.scale;
            -(NANOS_PER_SECOND * product.scale) < off < NANOS_PER_SECOND * product.scale
        }),
{
    let g = NANOS_PER_SECOND as int;
    let unit = 2 * LEAST_SIGNIFICAND as int;
    let nanos = whole * g + rest;
    let num = whole * part.scale + part.significand;
    let e1 = part.significand * g - rest * part.scale;
    let e2 = secs.significand * part.scale - num * secs.scale;
    let e3 = product.significand * secs.scale - secs.significand * factor * product.scale;
    let off = product.significand * g - nanos * factor * product.scale;
    let (p, s, c) = (part.scale, secs.scale, product.scale);
    // What each rounding contributes, over the common denominator.
    let t1 = factor * c * s * e1;
    let t2 = g * factor * c * e2;
    let t3 = g * p * e3;
    assert(off * (s * p) == t1 + t2 + t3) by {
        assert(num * g == nanos * p + e1) by (nonlinear_arith)
            requires
                num == whole * p + part.significand,
                nanos == whole * g + rest,
                e1 == part.significand * g - rest * p,
        ;
        assert(t3 == g * p * (product.significand * s) - g * p * (secs.significand * factor * c))
            by (nonlinear_arith)
            requires
                t3 == g * p * e3,
                e3 == product.significand * s - secs.significand * factor * c,
        ;
        assert(t2 == g * factor * c * (secs.significand * p) - factor * c * s * (num * g))
            by (nonlinear_arith)
            requires
                t2 == g * factor * c * e2,
                e2 == secs.significand * p - num * s,
        ;
        assert(factor * c * s * (num * g) == factor * c * s * (nanos * p) + t1)
            by (nonlinear_arith)
            requires
                num * g == nanos * p + e1,
                t1 == factor * c * s * e1,
        ;
        assert(g * p * (secs.significand * factor * c) == g * factor * c * (secs.significand * p))
            by (nonlinear_arith);
        assert(off * (s * p) == product.significand * g * (s * p) - nanos * factor * c * (s * p))
            by (nonlinear_arith)
            requires
                off == product.significand * g - nanos * factor * c,
        ;
        assert(product.significand * g * (s * p) == g * p * (product.significand * s))
            by (nonlinear_arith);
        assert(nanos * factor * c * (s * p) == factor * c * s * (nanos * p)) by (nonlinear_arith);
    }
    let most = 0x8_0000_0000int;
    let all = g * c * factor * (s * p);
    assert(factor * c * s >= 0 && g * factor * c >= 0 && g * p >= 0) by (nonlinear_arith)
        requires
            factor > 0,
            c >= 1,
            s >= 1,
            p >= 1,
            g > 0,
    ;
    assert(rest * p <= g * p) by (nonlinear_arith)
        requires
            rest < g,
            p >= 1,
    ;
    assert(num * s <= most * p * s) by (nonlinear_arith)
        requires
            num <= most * p,
            s >= 1,
    ;
    assert(secs.significand * factor * c <= most * s * factor * c) by (nonlinear_arith)
        requires
            secs.significand <= most * s,
            factor > 0,
            c >= 1,
    ;
    lemma_contribution(factor * c * s, e1, unit, rest * p, g * p);
    lemma_contribution(g * factor * c, e2, unit, num * s, most * p * s);
    lemma_contribution(g * p, e3, unit, secs.significand * factor * c, most * s * factor * c);
    assert(factor * c * s * (g * p) == all) by (nonlinear_arith)
        requires
            all == g * c * factor * (s * p),
    ;
    assert(g * factor * c == g * c * factor) by (nonlinear_arith);
    assert(most * p * s == most * (s * p)) by (nonlinear_arith);
    let scaled = g * c * factor;
    assert(scaled * (most * (s * p)) == most * (scaled * (s * p))) by (nonlinear_arith);
    let common = factor * c * s;
    assert(most * s * factor * c == most * common) by (nonlinear_arith)
        requires
            common == factor * c * s,
    ;
    assert(g * p * (most * common) == most * (common * (g * p)))
        by (nonlinear_arith);
    let sum = t1 + t2 + t3;
    assert(unit * sum == unit * t1 + unit * t2 + unit * t3) by (nonlinear_arith)
        requires
            sum == t1 + t2 + t3,
    ;
    assert(all == factor * (g * c * (s * p))) by (nonlinear_arith)
        requires
            all == g * c * factor * (s * p),
    ;
    let least_off = g * c * (s * p);
    assert(least_off > 0 && s * p > 0) by (nonlinear_arith)
        requires
            least_off == g * c * (s * p),
            g > 0,
            c >= 1,
            s >= 1,
            p >= 1,
    ;
    assert((2 * most + 1) * all < unit * least_off) by (nonlinear_arith)
        requires
            all == factor * least_off,
            least_off > 0,
            0 < factor <= 100_000,
            most == 0x8_0000_0000,
            unit == 0x20_0000_0000_0000,
    ;
    assert((2 * most + 1) * all == most * all + most * all + all) by (nonlinear_arith);
    assert(sum < least_off && -least_off < sum) by (nonlinear_arith)
        requires
            unit * sum < unit * least_off,
            -(unit * least_off) < unit * sum,
            unit > 0,
    ;
    assert(off < g * c) by (nonlinear_arith)
        requires
            off * (s * p) < g * c * (s * p),
            s * p > 0,
    ;
    assert(-(g * c) < off) by (nonlinear_arith)
        requires
            -(g * c * (s * p)) < off * (s * p),
            s * p > 0,
    ;
}

/// An error that is small against a number is small against what bounds the
/// number, whatever both are multiplied by.
proof fn lemma_contribution(k: int, error: int, unit: int, num: int, bound: int)
    requires
        k >= 0,
        unit * error <= num,
        -num <= unit * error,
        num <= bound,
    ensures
        unit * (k * error) <= k * bound,
        -(k * bound) <= unit * (k * error),
{
    assert(unit * (k * error) == k * (unit * error)) by (nonlinear_arith);
    assert(k * (unit * error) <= k * bound && -(k * bound) <= k * (unit * error))
        by (nonlinear_arith)
        requires
            k >= 0,
            unit * error <= bound,
            -bound <= unit * error,
    ;
}

/// Whether `v` is a power of two.
pub open spec fn is_power_of_two(v: int) -> bool
    decreases v,
{
    v == 1 || (v > 1 && v % 2 == 0 && is_power_of_two(v / 2))
}

proof fn lemma_scale_is_power(num: int, den: int, scale: int)
    requires
        num > 0,
        den > 0,
        is_power_of_two(scale),
        num * scale < 2 * LEAST_SIGNIFICAND * den,
    ensures
        is_power_of_two(scale_for(num, den, scale)),
        scale_for(num, den, scale) != scale ==> num * scale < LEAST_SIGNIFICAND * den,
    decreases
            if LEAST_SIGNIFICAND * den > num * scale {
                LEAST_SIGNIFICAND * den - num * scale
            } else {
                0
            },
{
    if num * scale < LEAST_SIGNIFICAND * den && scale > 0 {
        assert(num * (2 * scale) == 2 * (num * scale)) by (nonlinear_arith);
        assert(num * scale > 0) by (nonlinear_arith)
            requires
                num > 0,
                scale > 0,
        ;
        assert(2 * LEAST_SIGNIFICAND * den == 2 * (LEAST_SIGNIFICAND * den)) by (nonlinear_arith);
        assert((2 * scale) % 2 == 0 && (2 * scale) / 2 == scale);
        lemma_scale_is_power(num, den, 2 * scale);
    }
}

/// Rounding takes the nearest number that 53 binary digits can hold, and of
/// two that are as near the one whose last digit is even.
pub proof fn law_rounding_takes_the_nearest(num: int, den: int)
    requires
        num > 0,
        den > 0,
        num < 0x20_0000_0000_0000 * den,
    ensures
        ({
            let r = nearest(num, den);
            let error = r.significand * den - num * r.scale;
            &&& 0x10_0000_0000_0000 <= r.significand <= 0x20_0000_0000_0000
            &&& is_power_of_two(r.scale)
            &&& 0x10_0000_0000_0000 * den <= num * r.scale < 0x20_0000_0000_0000 * den
            &&& -den <= 2 * error <= den
            &&& (2 * error == den || 2 * error == -den) ==> r.significand % 2 == 0
        }),
{
    let r = nearest(num, den);
    lemma_nearest_in_range(num, den);
    lemma_scale_fits(num, den, 1);
    lemma_scale_is_power(num, den, 1);
    let x = num * r.scale;
    lemma_fundamental_div_mod(x, den);
    let floor = x / den;
    let rest = x % den;
    let error = r.significand * den - x;
    if r.significand == floor {
        assert(error == -rest) by (nonlinear_arith)
            requires
                error == floor * den - x,
                x == den * floor + rest,
        ;
    } else {
        assert(error == den - rest) by (nonlinear_arith)
            requires
                error == (floor + 1) * den - x,
                x == den * floor + rest,
        ;
    }
}

/// What is left of a number after halving it as long as it is even.
spec fn odd_part(v: int) -> int
    decreases v,
{
    if v > 0 && v % 2 == 0 {
        odd_part(v / 2)
    } else {
        v
    }
}

proof fn lemma_odd_part_bounded(v: int)
    ensures
        v > 0 ==> odd_part(v) <= v,
    decreases v,
{
    if v > 0 && v % 2 == 0 {
        lemma_odd_part_bounded(v / 2);
    }
}

/// A number from zero on in double precision.
#[derive(Debug, Clone, Copy)]
struct Double {
    significand: u64,
    scale: u128,
}

impl View for Double {
    type V = Binary;

    closed spec fn view(&self) -> Binary {
        Binary { significand: self.significand as int, scale: self.scale as int }
    }
}

/// Two ways to write a fraction compare alike with a limit and round alike.
proof fn lemma_same_fraction(num: int, den: int, scale: int, n: int, d: int, limit: int)
    requires
        den > 0,
        d > 0,
        n * den == (num * scale) * d,
    ensures
        (n < limit * d) == (num * scale < limit * den),
        round_even(n, d) == round_even(num * scale, den),
{
    let x = num * scale;
    assert((n < limit * d) == (n * den < limit * d * den)) by (nonlinear_arith)
        requires
            den > 0,
    ;
    assert((x < limit * den) == (x * d < limit * den * d)) by (nonlinear_arith)
        requires
            d > 0,
    ;
    assert(limit * d * den == limit * den * d) by (nonlinear_arith);
    assert(d * den == den * d) by (nonlinear_arith);
    lemma_round_even_scales(n, d, den);
    lemma_round_even_scales(x, den, d);
}

/// Rounds `num / den` to double precision.
fn nearest_double(num: u128, den: u128) -> (r: Double)
    requires
        den > 0,
        num < 2 * LEAST_SIGNIFICAND * den,
        num > 0 ==> den <= num * 0x40_0000_0000_0000_0000,
        odd_part(den as int) <= 0x40_0000_0000_0000_0000,
    ensures
        r@ == nearest(num as int, den as int),
        odd_part(r@.scale) == 1,
{
    if num == 0 {
        return Double { significand: 0, scale: 1 };
    }
    let mut n: u128 = num;
    let mut d: u128 = den;
    let mut scale: u128 = 1;
    while n / d < LEAST_SIGNIFICAND as u128
        invariant
            num > 0,
            den > 0,
            n > 0,
            d > 0,
            0 < scale <= 0x800_0000_0000_0000_0000_0000_0000_0000,
            n * den == (num * scale) * d,
            den <= num * 0x40_0000_0000_0000_0000,
            odd_part(d as int) <= 0x40_0000_0000_0000_0000,
            odd_part(scale as int) == 1,
            scale_for(num as int, den as int, 1) == scale_for(
                num as int,
                den as int,
                scale as int,
            ),
        decreases 0x800_0000_0000_0000_0000_0000_0000_0000 - scale,
    {
        proof {
            lemma_fundamental_div_mod(n as int, d as int);
            assert(n < LEAST_SIGNIFICAND * d) by (nonlinear_arith)
                requires
                    n == d * (n / d) + n % d,
                    n % d < d,
                    n / d < LEAST_SIGNIFICAND,
            ;
            lemma_same_fraction(
                num as int,
                den as int,
                scale as int,
                n as int,
                d as int,
                LEAST_SIGNIFICAND as int,
            );
            assert(scale < 0x400_0000_0000_0000_0000_0000_0000_0000) by (nonlinear_arith)
                requires
                    num * scale < 0x10_0000_0000_0000 * den,
                    den <= num * 0x40_0000_0000_0000_0000,
                    num > 0,
                    scale > 0,
            ;
            assert((2 * scale) % 2 == 0 && (2 * scale) / 2 == scale);
        }
        if d % 2 == 0 {
            assert(n * den == (num * (2 * scale)) * (d as int / 2)) by (nonlinear_arith)
                requires
                    n * den == (num * scale) * d,
                    d % 2 == 0,
            ;
            d = d / 2;
        } else {
            assert((2 * n) * den == (num * (2 * scale)) * d) by (nonlinear_arith)
                requires
                    n * den == (num * scale) * d,
            ;
            n = 2 * n;
        }
        scale = 2 * scale;
    }
    let floor: u128 = n / d;
    let rest: u128 = n % d;
    proof {
        lemma_fundamental_div_mod(n as int, d as int);
        assert(n >= LEAST_SIGNIFICAND * d) by (nonlinear_arith)
            requires
                n == d * (n / d) + n % d,
                0 <= n % d,
                n / d >= LEAST_SIGNIFICAND,
                d > 0,
        ;
        lemma_same_fraction(
            num as int,
            den as int,
            scale as int,
            n as int,
            d as int,
            LEAST_SIGNIFICAND as int,
        );
        lemma_nearest_in_range(num as int, den as int);
    }
    let rounded: u128 = if rest < d - rest || (rest == d - rest && floor % 2 == 0) {
        floor
    } else {
        floor + 1
    };
    Double { significand: rounded as u64, scale }
}

/// The whole part of a span of nanoseconds times `factor`, in seconds and in
/// double precision.
pub fn whole_product_of_nanos(nanos: u64, factor: u32) -> (r: u64)
    requires
        0 < factor <= 100_000,
    ensures
        r == whole_product(seconds(nanos as int), factor as int),
{
    let whole: u64 = nanos / NANOS_PER_SECOND;
    proof {
        lemma_odd_part_bounded(NANOS_PER_SECOND as int);
        lemma_part_in_range(nanos as int % NANOS_PER_SECOND as int);
        lemma_seconds_in_range(nanos as int);
    }
    let part: Double = nearest_double((nanos % NANOS_PER_SECOND) as u128, NANOS_PER_SECOND as u128);
    assert(0 <= whole * part.scale <= 0x8_0000_0000 * part.scale);
    let secs: Double = nearest_double(
        whole as u128 * part.scale + part.significand as u128,
        part.scale,
    );
    proof {
        law_products_are_ordered(nanos, nanos, factor as int);
        assert(secs.significand * factor < 2 * LEAST_SIGNIFICAND * secs.scale && secs.significand
            <= secs.significand * factor <= 0x20_0000_0000_0000 * 100_000) by (nonlinear_arith)
            requires
                0 <= secs.significand <= 0x8_0000_0000 * secs.scale,
                secs.significand <= 0x20_0000_0000_0000,
                0 < factor <= 100_000,
                secs.scale >= 1,
        ;
    }
    let product: Double = nearest_double(secs.significand as u128 * factor as u128, secs.scale);
    (product.significand as u128 / product.scale) as u64
}

} // verus!
