//! The curve that the columns of a picture are moved along, as a function of real
//! numbers.

use vstd::prelude::*;

use crate::reals::{cancel, real_abs};

verus! {

/// The place of a column, from -1 at the left edge to 1 at the right edge.
pub open spec fn place(x: real, out_width: real) -> real {
    2real * (x / out_width) - 1real
}

/// How far a column is moved outwards.
pub open spec fn shift(t: real, diff: real) -> real {
    if t < 0real {
        -(t * t * (diff / 2real))
    } else {
        t * t * (diff / 2real)
    }
}

/// Where column `x` of an output `out_width` wide lies in an input `input_width`
/// wide.
pub open spec fn curve(x: real, out_width: real, input_width: real) -> real {
    let diff = out_width - input_width;
    x - diff / 2real - shift(place(x, out_width), diff)
}

/// How much the curve departs from a straight line, at a place between 0 at the
/// left edge and 1 at the right edge.
pub open spec fn bend(g: real) -> real {
    g - g * g
}

/// The size of a product.
pub proof fn abs_product(a: real, b: real, m: real, n: real)
    requires
        real_abs(a) <= m,
        real_abs(b) <= n,
    ensures
        real_abs(a * b) <= m * n,
{
    let x = real_abs(a);
    let y = real_abs(b);
    assert(x * y <= m * n) by (nonlinear_arith)
        requires
            0real <= x <= m,
            0real <= y <= n,
    ;
    assert((-a) * b == -(a * b) && a * (-b) == -(a * b) && (-a) * (-b) == a * b)
        by (nonlinear_arith);
    assert(x * y >= 0real) by (nonlinear_arith)
        requires
            0real <= x,
            0real <= y,
    ;
}

/// A quotient times its divisor.
pub proof fn quotient_times_divisor(a: real, b: real)
    requires
        b > 0real,
    ensures
        (a / b) * b == a,
{
    assert((a / b) * b == a) by (nonlinear_arith)
        requires
            b > 0real,
    ;
}

/// The left half of the curve.
pub proof fn curve_left(x: real, out_width: real, input_width: real)
    requires
        out_width > 0real,
        2real * x <= out_width,
    ensures
        curve(x, out_width, input_width) == x - 2real * ((out_width - input_width) * bend(
            x / out_width,
        )),
{
    let g = x / out_width;
    let t = place(x, out_width);
    let d = out_width - input_width;
    quotient_times_divisor(x, out_width);
    assert((2real * g) * out_width == 2real * (g * out_width)) by (nonlinear_arith);
    cancel(2real * g, 1real, out_width);
    assert(t * t * (d / 2real) == d / 2real - 2real * (d * (g - g * g))) by (nonlinear_arith)
        requires
            t == 2real * g - 1real,
    ;
    if t == 0real {
        assert(t * t * (d / 2real) == 0real) by (nonlinear_arith)
            requires
                t == 0real,
        ;
    }
}

/// The right half of the curve.
pub proof fn curve_right(x: real, out_width: real, input_width: real)
    requires
        out_width > 0real,
        2real * x >= out_width,
    ensures
        curve(x, out_width, input_width) == x - (out_width - input_width) + 2real * ((out_width
            - input_width) * bend(x / out_width)),
{
    let g = x / out_width;
    let t = place(x, out_width);
    let d = out_width - input_width;
    quotient_times_divisor(x, out_width);
    assert((2real * g) * out_width == 2real * (g * out_width)) by (nonlinear_arith);
    cancel(1real, 2real * g, out_width);
    assert(t * t * (d / 2real) == d / 2real - 2real * (d * (g - g * g))) by (nonlinear_arith)
        requires
            t == 2real * g - 1real,
    ;
}

/// The curve is the same from both edges.
pub proof fn curve_mirrors(x: real, out_width: real, input_width: real)
    requires
        out_width > 0real,
    ensures
        curve(out_width - x, out_width, input_width) == input_width - curve(
            x,
            out_width,
            input_width,
        ),
{
    let g = x / out_width;
    let f = (out_width - x) / out_width;
    quotient_times_divisor(x, out_width);
    quotient_times_divisor(out_width - x, out_width);
    assert((1real - g) * out_width == out_width - g * out_width) by (nonlinear_arith);
    cancel(f, 1real - g, out_width);
    cancel(1real - g, f, out_width);
    assert(f - f * f == g - g * g) by (nonlinear_arith)
        requires
            f == 1real - g,
    ;
    if 2real * x <= out_width {
        curve_left(x, out_width, input_width);
        curve_right(out_width - x, out_width, input_width);
    } else {
        curve_right(x, out_width, input_width);
        curve_left(out_width - x, out_width, input_width);
    }
}

/// Two neighbouring columns of the left half, as places.
proof fn neighbours(x: real, out_width: real)
    requires
        x >= 0real,
        out_width >= 1real,
        2real * (x + 1real) <= out_width,
    ensures
        (x + 1real) / out_width == x / out_width + 1real / out_width,
        1real / out_width > 0real,
        (1real / out_width) * out_width == 1real,
        (x / out_width) * out_width == x,
        x / out_width >= 0real,
        2real * ((x + 1real) / out_width) <= 1real,
{
    let g = x / out_width;
    let j = 1real / out_width;
    let f = (x + 1real) / out_width;
    quotient_times_divisor(x, out_width);
    quotient_times_divisor(1real, out_width);
    quotient_times_divisor(x + 1real, out_width);
    assert((g + j) * out_width == g * out_width + j * out_width) by (nonlinear_arith);
    assert(0real * out_width == 0real) by (nonlinear_arith);
    assert((2real * f) * out_width == 2real * (f * out_width)) by (nonlinear_arith);
    cancel(f, g + j, out_width);
    cancel(g + j, f, out_width);
    cancel(0real, g, out_width);
    cancel(2real * f, 1real, out_width);
    assert(j > 0real) by (nonlinear_arith)
        requires
            j * out_width == 1real,
            out_width >= 1real,
    ;
}

/// How the bend changes from one place to another.
proof fn bend_step(d: real, g: real, f: real, j: real)
    requires
        f == g + j,
    ensures
        d * bend(f) - d * bend(g) == (d * j) * (1real - g - f),
{
    assert(d * (f - f * f) - d * (g - g * g) == (d * j) * (1real - g - f)) by (nonlinear_arith)
        requires
            f == g + j,
    ;
}

/// The bend in proportion to the column.
proof fn bend_of_column(d: real, g: real, x: real, out_width: real, j: real)
    requires
        x == g * out_width,
        j * out_width == 1real,
    ensures
        d * bend(g) == x * ((d * j) * (1real - g)),
{
    assert(d * (g - g * g) == x * ((d * j) * (1real - g))) by (nonlinear_arith)
        requires
            x == g * out_width,
            j * out_width == 1real,
    ;
}

/// Multiplying both sides by a number that is not negative.
proof fn times_keeps_order(a: real, b: real, c: real)
    requires
        a <= b,
        c >= 0real,
    ensures
        c * a <= c * b,
{
    assert(c * a <= c * b) by (nonlinear_arith)
        requires
            a <= b,
            c >= 0real,
    ;
}

/// From one column of the left half to the next, the curve rises. Where the
/// output is the wider one it does so at least in proportion to what it has
/// risen.
pub proof fn left_half_rises(x: real, out_width: real, input_width: real)
    requires
        x >= 0real,
        out_width >= 1real,
        2real * (x + 1real) <= out_width,
    ensures
        input_width >= out_width ==> curve(x + 1real, out_width, input_width) >= curve(
            x,
            out_width,
            input_width,
        ) + 1real,
        input_width <= out_width ==> x * (curve(x + 1real, out_width, input_width) - curve(
            x,
            out_width,
            input_width,
        )) >= curve(x, out_width, input_width),
        3real * out_width <= 4real * input_width ==> curve(x + 1real, out_width, input_width)
            >= curve(x, out_width, input_width) + 1real / 2real,
        x == 0real ==> curve(x, out_width, input_width) == 0real,
{
    let d = out_width - input_width;
    let g = x / out_width;
    let j = 1real / out_width;
    let f = (x + 1real) / out_width;
    let k = d * j;
    let ka = k * (1real - g - f);
    let kb = k * (1real - g);
    let c = curve(x, out_width, input_width);
    let e = curve(x + 1real, out_width, input_width);
    neighbours(x, out_width);
    assert(c == x - 2real * (x * kb)) by {
        curve_left(x, out_width, input_width);
        bend_of_column(d, g, x, out_width, j);
    }
    assert(e - c == 1real - 2real * ka) by {
        curve_left(x, out_width, input_width);
        curve_left(x + 1real, out_width, input_width);
        bend_step(d, g, f, j);
    }
    if input_width >= out_width {
        assert(ka <= 0real) by {
            assert(k <= 0real) by (nonlinear_arith)
                requires
                    k == d * j,
                    d <= 0real,
                    j > 0real,
            ;
            times_keeps_order(k, 0real, 1real - g - f);
            assert((1real - g - f) * 0real == 0real && (1real - g - f) * k == k * (1real - g - f))
                by (nonlinear_arith);
        }
    }
    if input_width <= out_width {
        assert(k >= 0real) by (nonlinear_arith)
            requires
                k == d * j,
                d >= 0real,
                j > 0real,
        ;
        if 3real * out_width <= 4real * input_width {
            assert(k <= 1real / 4real) by (nonlinear_arith)
                requires
                    k == d * j,
                    4real * d <= out_width,
                    j > 0real,
                    j * out_width == 1real,
            ;
            times_keeps_order(1real - g - f, 1real, k);
            assert(k * 1real == k) by (nonlinear_arith);
        }
        times_keeps_order(1real - g - f, 1real - g, k);
        times_keeps_order(ka, kb, x);
        let r = e - c;
        assert(x * r == x - 2real * (x * ka)) by (nonlinear_arith)
            requires
                r == 1real - 2real * ka,
        ;
    }
    if x == 0real {
        assert(x * kb == 0real) by (nonlinear_arith)
            requires
                x == 0real,
        ;
    }
}

/// From the last column of the left half to the first of the right half, the
/// curve rises.
pub proof fn middle_rises(x: real, out_width: real, input_width: real)
    requires
        x >= 1real,
        out_width == 2real * x + 1real,
        input_width >= 0real,
    ensures
        curve(x + 1real, out_width, input_width) >= curve(x, out_width, input_width) + 2real
            / 3real,
{
    let d = out_width - input_width;
    let g = x / out_width;
    let j = 1real / out_width;
    curve_left(x, out_width, input_width);
    curve_mirrors(x, out_width, input_width);
    quotient_times_divisor(x, out_width);
    quotient_times_divisor(1real, out_width);
    assert((2real * g + j) * out_width == 2real * (g * out_width) + j * out_width && 1real
        * out_width == out_width && 0real * out_width == 0real) by (nonlinear_arith);
    cancel(2real * g + j, 1real, out_width);
    cancel(1real, 2real * g + j, out_width);
    cancel(0real, j, out_width);
    assert(j <= 1real / 3real && j > 0real) by (nonlinear_arith)
        requires
            j * out_width == 1real,
            out_width >= 3real,
    ;
    assert(4real * (g - g * g) == 1real - j * j) by (nonlinear_arith)
        requires
            2real * g + j == 1real,
    ;
    let dj = d * j;
    assert(dj <= 1real) by (nonlinear_arith)
        requires
            dj == d * j,
            d <= out_width,
            j > 0real,
            j * out_width == 1real,
    ;
    assert(d * (j * j) <= j) by (nonlinear_arith)
        requires
            dj == d * j,
            dj <= 1real,
            j > 0real,
    ;
    let b = bend(g);
    let jj = j * j;
    assert(4real * (d * b) == d - d * jj) by (nonlinear_arith)
        requires
            4real * b == 1real - jj,
    ;
}

/// The curve begins at the left edge.
pub proof fn curve_begins(out_width: real, input_width: real)
    requires
        out_width > 0real,
    ensures
        curve(0real, out_width, input_width) == 0real,
{
    let d = out_width - input_width;
    curve_left(0real, out_width, input_width);
    assert(0real / out_width == 0real) by (nonlinear_arith)
        requires
            out_width > 0real,
    ;
    assert(d * (0real - 0real * 0real) == 0real) by (nonlinear_arith);
}

/// Where the output is the wider one, no column of the left half lies farther
/// from the left edge than in the output.
pub proof fn curve_stays_below(x: real, out_width: real, input_width: real)
    requires
        0real <= x,
        2real * x <= out_width,
        out_width > 0real,
        input_width <= out_width,
    ensures
        curve(x, out_width, input_width) <= x,
{
    let d = out_width - input_width;
    let g = x / out_width;
    curve_left(x, out_width, input_width);
    quotient_times_divisor(x, out_width);
    assert(0real <= g <= 1real) by (nonlinear_arith)
        requires
            g * out_width == x,
            0real <= x <= out_width,
            out_width > 0real,
    ;
    assert(d * (g - g * g) >= 0real) by (nonlinear_arith)
        requires
            0real <= g <= 1real,
            d >= 0real,
    ;
}

/// A column is moved by at most one if it is near enough to the middle.
pub proof fn near_middle(e: real, m: real, out_width: real, input_width: real)
    requires
        out_width > 0real,
        real_abs(out_width - input_width) <= m,
        2real * ((e * e) * m) <= out_width * out_width,
    ensures
        real_abs(
            curve(out_width / 2real + e, out_width, input_width) - (input_width / 2real + e),
        ) <= 1real,
        e == 0real ==> curve(out_width / 2real, out_width, input_width) == input_width / 2real,
{
    let d = out_width - input_width;
    let x = out_width / 2real + e;
    let t = place(x, out_width);
    let g = x / out_width;
    quotient_times_divisor(x, out_width);
    assert(t * out_width == 2real * e) by (nonlinear_arith)
        requires
            t == 2real * g - 1real,
            g * out_width == out_width / 2real + e,
    ;
    assert((t * t) * (m / 2real) <= 1real) by (nonlinear_arith)
        requires
            t * out_width == 2real * e,
            2real * ((e * e) * m) <= out_width * out_width,
            out_width > 0real,
    ;
    assert(t * t >= 0real) by (nonlinear_arith);
    abs_product(t * t, d / 2real, t * t, m / 2real);
    if e == 0real {
        assert(t == 0real) by (nonlinear_arith)
            requires
                t * out_width == 2real * e,
                e == 0real,
                out_width > 0real,
        ;
        assert(0real * 0real * (d / 2real) == 0real) by (nonlinear_arith);
    }
}

/// How far the curve rises between two places of the left half.
proof fn rise_in_left_half(a: real, b: real, out_width: real, input_width: real)
    requires
        out_width > 0real,
        0real <= a <= b,
        2real * b <= out_width,
        0real <= input_width <= out_width,
    ensures
        real_abs(curve(b, out_width, input_width) - curve(a, out_width, input_width)) <= b - a,
{
    let d = out_width - input_width;
    let g = a / out_width;
    let f = b / out_width;
    let r = b - a;
    let e = d * (f - f * f) - d * (g - g * g);
    curve_left(a, out_width, input_width);
    curve_left(b, out_width, input_width);
    quotient_times_divisor(a, out_width);
    quotient_times_divisor(b, out_width);
    assert(0real <= g && 2real * f <= 1real && g <= f) by (nonlinear_arith)
        requires
            g * out_width == a,
            f * out_width == b,
            out_width > 0real,
            0real <= a <= b,
            2real * b <= out_width,
    ;
    bend_rise(d, g, f, out_width, r);
    assert(curve(b, out_width, input_width) - curve(a, out_width, input_width) == r - 2real * e);
}

/// The bend changes by no more than the place.
proof fn bend_rise(d: real, g: real, f: real, w: real, r: real)
    requires
        0real <= d <= w,
        0real <= g <= f,
        2real * f <= 1real,
        f * w - g * w == r,
    ensures
        0real <= d * (f - f * f) - d * (g - g * g) <= r,
{
    let h = f - g;
    let a = 1real - f - g;
    assert(d * (f - f * f) - d * (g - g * g) == d * (h * a)) by (nonlinear_arith)
        requires
            h == f - g,
            a == 1real - f - g,
    ;
    assert(0real <= h * a <= h) by (nonlinear_arith)
        requires
            h >= 0real,
            0real <= a <= 1real,
    ;
    let p = h * a;
    assert(0real <= d * p <= w * h) by (nonlinear_arith)
        requires
            0real <= p <= h,
            0real <= d <= w,
    ;
    assert(w * h == r) by (nonlinear_arith)
        requires
            f * w - g * w == r,
            h == f - g,
    ;
}

/// Where the output is the wider one, columns of the input lie no farther apart
/// than in the output.
pub proof fn curve_never_spreads(a: real, b: real, out_width: real, input_width: real)
    requires
        out_width > 0real,
        0real <= a <= b <= out_width,
        0real <= input_width <= out_width,
    ensures
        real_abs(curve(b, out_width, input_width) - curve(a, out_width, input_width)) <= b - a,
{
    let h = out_width / 2real;
    if b <= h {
        rise_in_left_half(a, b, out_width, input_width);
    } else if a >= h {
        curve_mirrors(out_width - a, out_width, input_width);
        curve_mirrors(out_width - b, out_width, input_width);
        rise_in_left_half(out_width - b, out_width - a, out_width, input_width);
    } else {
        rise_in_left_half(a, h, out_width, input_width);
        curve_mirrors(out_width - b, out_width, input_width);
        curve_mirrors(h, out_width, input_width);
        rise_in_left_half(out_width - b, h, out_width, input_width);
    }
}

/// The left half of the curve, seen from the middle.
proof fn curve_from_middle(x: real, out_width: real, input_width: real)
    requires
        out_width > 0real,
        0real <= x,
        2real * x <= out_width,
        0real <= input_width <= out_width,
    ensures
        curve(x, out_width, input_width) <= input_width / 2real,
        out_width <= 2real * input_width ==> input_width / 2real - curve(
            x,
            out_width,
            input_width,
        ) >= (out_width / 2real - x) / 2real,
{
    let d = out_width - input_width;
    let g = x / out_width;
    let a = out_width / 2real - x;
    let t = place(x, out_width);
    quotient_times_divisor(x, out_width);
    // The place is -2 a / out_width.
    assert(t * out_width == -(2real * a)) by (nonlinear_arith)
        requires
            t == 2real * g - 1real,
            g * out_width == x,
            a == out_width / 2real - x,
    ;
    assert(-1real <= t <= 0real) by (nonlinear_arith)
        requires
            t * out_width == -(2real * a),
            out_width > 0real,
            0real <= a,
            2real * a <= out_width,
    ;
    let k = t * t * (d / 2real);
    square_from_middle(t, d, a, out_width);
    if t == 0real {
        assert(0real * 0real * (d / 2real) == 0real) by (nonlinear_arith);
    }
    assert(curve(x, out_width, input_width) == x - d / 2real + k);
}

/// The shift of a column, in proportion to its distance from the middle.
proof fn square_from_middle(t: real, d: real, a: real, w: real)
    requires
        w > 0real,
        a >= 0real,
        -1real <= t <= 0real,
        t * w == -(2real * a),
        0real <= d <= w,
    ensures
        t * t * (d / 2real) <= a,
        2real * d <= w ==> t * t * (d / 2real) <= a / 2real,
{
    let s = -t;
    assert(t * t == s * s) by (nonlinear_arith)
        requires
            s == -t,
    ;
    assert(s * w == 2real * a) by (nonlinear_arith)
        requires
            s == -t,
            t * w == -(2real * a),
    ;
    let p = s * s;
    assert(0real <= p <= s) by (nonlinear_arith)
        requires
            p == s * s,
            0real <= s <= 1real,
    ;
    assert(p * (d / 2real) <= s * (w / 2real)) by (nonlinear_arith)
        requires
            0real <= p <= s,
            0real <= d <= w,
    ;
    assert(s * (w / 2real) == a) by (nonlinear_arith)
        requires
            s * w == 2real * a,
    ;
    if 2real * d <= w {
        assert(p * (d / 2real) <= s * (w / 4real)) by (nonlinear_arith)
            requires
                0real <= p <= s,
                0real <= d,
                2real * d <= w,
        ;
        assert(s * (w / 4real) == a / 2real) by (nonlinear_arith)
            requires
                s * w == 2real * a,
        ;
    }
}

/// Both halves of the curve, seen from the middle: where the output is the wider
/// one, but no more than twice as wide, a column is at least half as far from
/// the middle of the input as it is from the middle of the output.
pub proof fn curve_leaves_middle(x: real, out_width: real, input_width: real)
    requires
        out_width > 0real,
        0real <= x <= out_width,
        0real <= input_width <= out_width,
    ensures
        2real * x <= out_width ==> curve(x, out_width, input_width) <= input_width / 2real,
        2real * x >= out_width ==> curve(x, out_width, input_width) >= input_width / 2real,
        out_width <= 2real * input_width ==> real_abs(
            curve(x, out_width, input_width) - input_width / 2real,
        ) >= real_abs(x - out_width / 2real) / 2real,
{
    if 2real * x <= out_width {
        curve_from_middle(x, out_width, input_width);
    }
    if 2real * x >= out_width {
        curve_mirrors(out_width - x, out_width, input_width);
        curve_from_middle(out_width - x, out_width, input_width);
    }
}

/// How fast the curve leaves the left edge, where the output is the wider one,
/// but no more than twice as wide.
pub proof fn curve_leaves_edge(x: real, out_width: real, input_width: real)
    requires
        out_width > 0real,
        0real <= x,
        2real * x <= out_width,
        input_width <= out_width <= 2real * input_width,
    ensures
        out_width * curve(x, out_width, input_width) >= x * x,
        3real * out_width <= 4real * input_width ==> curve(x, out_width, input_width) >= x
            / 2real,
{
    let d = out_width - input_width;
    let g = x / out_width;
    let c = curve(x, out_width, input_width);
    curve_left(x, out_width, input_width);
    quotient_times_divisor(x, out_width);
    assert(0real <= g && 2real * g <= 1real) by (nonlinear_arith)
        requires
            g * out_width == x,
            out_width > 0real,
            0real <= x,
            2real * x <= out_width,
    ;
    edge_bend(d, g, out_width, x);
}

/// A bound on the bend next to the edge.
proof fn edge_bend(d: real, g: real, w: real, x: real)
    requires
        w > 0real,
        0real <= g,
        2real * g <= 1real,
        g * w == x,
        0real <= d,
        2real * d <= w,
    ensures
        w * (x - 2real * (d * bend(g))) >= x * x,
        4real * d <= w ==> x - 2real * (d * bend(g)) >= x / 2real,
{
    let b = g - g * g;
    assert(0real <= b <= g) by (nonlinear_arith)
        requires
            b == g - g * g,
            0real <= g,
            2real * g <= 1real,
    ;
    assert(2real * (d * b) <= w * b) by (nonlinear_arith)
        requires
            b >= 0real,
            2real * d <= w,
    ;
    assert(w * b == x - g * x) by (nonlinear_arith)
        requires
            b == g - g * g,
            g * w == x,
    ;
    let y = x - 2real * (d * b);
    assert(w * y >= w * (g * x)) by (nonlinear_arith)
        requires
            y >= g * x,
            w > 0real,
    ;
    assert(w * (g * x) == x * x) by (nonlinear_arith)
        requires
            g * w == x,
    ;
    if 4real * d <= w {
        assert(4real * (d * b) <= w * b) by (nonlinear_arith)
            requires
                b >= 0real,
                4real * d <= w,
        ;
        assert(g * x >= 0real) by (nonlinear_arith)
            requires
                g * w == x,
                w > 0real,
                g >= 0real,
        ;
    }
}

/// Pictures of one width are not moved.
pub proof fn curve_is_straight(x: real, width: real)
    ensures
        curve(x, width, width) == x,
{
    let t = place(x, width);
    assert(t * t * (0real / 2real) == 0real) by (nonlinear_arith);
}

/// By how much the rise from one column of the left half to the next falls short
/// of one.
proof fn shortfall_in_left_half(x: real, out_width: real, input_width: real)
    requires
        x >= 0real,
        out_width >= 1real,
        2real * (x + 1real) <= out_width,
    ensures
        (out_width * out_width) * (1real - (curve(x + 1real, out_width, input_width) - curve(
            x,
            out_width,
            input_width,
        ))) == 2real * ((out_width - input_width) * (out_width - 2real * x - 1real)),
{
    let d = out_width - input_width;
    let g = x / out_width;
    let j = 1real / out_width;
    let f = (x + 1real) / out_width;
    let ka = (d * j) * (1real - g - f);
    let short = 1real - (curve(x + 1real, out_width, input_width) - curve(
        x,
        out_width,
        input_width,
    ));
    neighbours(x, out_width);
    assert(short == 2real * ka) by {
        curve_left(x, out_width, input_width);
        curve_left(x + 1real, out_width, input_width);
        bend_step(d, g, f, j);
    }
    scaled_shortfall(d, g, f, j, out_width, x, short);
}

/// The shortfall at the scale of the columns.
proof fn scaled_shortfall(d: real, g: real, f: real, j: real, w: real, x: real, short: real)
    requires
        short == 2real * ((d * j) * (1real - g - f)),
        f == g + j,
        j * w == 1real,
        g * w == x,
    ensures
        (w * w) * short == 2real * (d * (w - 2real * x - 1real)),
{
    let a = 1real - g - f;
    assert(a * w == w - 2real * x - 1real) by (nonlinear_arith)
        requires
            a == 1real - g - f,
            f == g + j,
            j * w == 1real,
            g * w == x,
    ;
    assert((w * w) * short == 2real * (d * ((j * w) * (a * w)))) by (nonlinear_arith)
        requires
            short == 2real * ((d * j) * a),
    ;
    let b = a * w;
    assert(1real * b == b) by (nonlinear_arith);
}

/// The left half of the curve, in proportion to the square of the distance from
/// the middle.
proof fn square_of_distance(x: real, out_width: real, input_width: real)
    requires
        out_width > 0real,
        2real * x <= out_width,
    ensures
        (out_width * out_width) * (curve(x, out_width, input_width) - (input_width / 2real - (
        out_width / 2real - x))) == 2real * ((out_width - input_width) * ((out_width / 2real - x)
            * (out_width / 2real - x))),
{
    let d = out_width - input_width;
    let p = out_width / 2real - x;
    let t = place(x, out_width);
    let g = x / out_width;
    let k = t * t * (d / 2real);
    quotient_times_divisor(x, out_width);
    assert(t * out_width == -(2real * p)) by (nonlinear_arith)
        requires
            t == 2real * g - 1real,
            g * out_width == x,
            p == out_width / 2real - x,
    ;
    assert(t <= 0real) by (nonlinear_arith)
        requires
            t * out_width == -(2real * p),
            p >= 0real,
            out_width > 0real,
    ;
    if t == 0real {
        assert(0real * 0real * (d / 2real) == 0real) by (nonlinear_arith);
    }
    assert(curve(x, out_width, input_width) - (input_width / 2real - p) == k);
    assert((out_width * out_width) * k == 2real * (d * (p * p))) by (nonlinear_arith)
        requires
            k == t * t * (d / 2real),
            t * out_width == -(2real * p),
    ;
}

/// By how much the rise over the middle falls short of one.
proof fn shortfall_at_middle(x: real, out_width: real, input_width: real)
    requires
        out_width > 0real,
        2real * x <= out_width <= 2real * (x + 1real),
        input_width <= out_width,
    ensures
        (out_width * out_width) * (1real - (curve(x + 1real, out_width, input_width) - curve(
            x,
            out_width,
            input_width,
        ))) >= out_width - input_width,
{
    let d = out_width - input_width;
    let y = out_width - x - 1real;
    let p = out_width / 2real - x;
    let q = out_width / 2real - y;
    let ww = out_width * out_width;
    let a = curve(x, out_width, input_width) - (input_width / 2real - p);
    let b = curve(y, out_width, input_width) - (input_width / 2real - q);
    square_of_distance(x, out_width, input_width);
    square_of_distance(y, out_width, input_width);
    curve_mirrors(y, out_width, input_width);
    assert(p + q == 1real);
    assert(1real - (curve(x + 1real, out_width, input_width) - curve(
        x,
        out_width,
        input_width,
    )) == a + b);
    sum_of_squares(ww, a, b, d, p, q);
}

/// Two parts of one have squares that add up to one half at least.
proof fn sum_of_squares(ww: real, a: real, b: real, d: real, p: real, q: real)
    requires
        ww * a == 2real * (d * (p * p)),
        ww * b == 2real * (d * (q * q)),
        p + q == 1real,
        d >= 0real,
    ensures
        ww * (a + b) >= d,
{
    let s = p * p + q * q;
    assert(2real * s >= 1real) by (nonlinear_arith)
        requires
            s == p * p + q * q,
            p + q == 1real,
    ;
    assert(ww * (a + b) == 2real * (d * s)) by (nonlinear_arith)
        requires
            ww * a == 2real * (d * (p * p)),
            ww * b == 2real * (d * (q * q)),
            s == p * p + q * q,
    ;
    times_keeps_order(1real, 2real * s, d);
    assert(d * (2real * s) == 2real * (d * s) && d * 1real == d) by (nonlinear_arith);
}

/// Where the output is the wider one, two places that are one column apart in it
/// are less than one column apart in the input. By how much, at least.
pub proof fn curve_draws_together(x: real, out_width: real, input_width: real)
    requires
        0real <= x,
        x + 1real <= out_width,
        input_width <= out_width,
    ensures
        (out_width * out_width) * (1real - (curve(x + 1real, out_width, input_width) - curve(
            x,
            out_width,
            input_width,
        ))) >= out_width - input_width,
{
    let d = out_width - input_width;
    if 2real * (x + 1real) <= out_width {
        shortfall_in_left_half(x, out_width, input_width);
        times_keeps_order(1real, out_width - 2real * x - 1real, d);
        assert(d * 1real == d) by (nonlinear_arith);
    } else if 2real * x >= out_width {
        let y = out_width - x - 1real;
        curve_mirrors(y, out_width, input_width);
        curve_mirrors(y + 1real, out_width, input_width);
        shortfall_in_left_half(y, out_width, input_width);
        times_keeps_order(1real, out_width - 2real * y - 1real, d);
        assert(d * 1real == d) by (nonlinear_arith);
    } else {
        shortfall_at_middle(x, out_width, input_width);
    }
}

/// Between two places of the left half the curve does not fall, where the output
/// is no more than twice as wide.
proof fn left_half_never_falls(a: real, b: real, out_width: real, input_width: real)
    requires
        out_width > 0real,
        0real <= a <= b,
        2real * b <= out_width,
        input_width <= out_width <= 2real * input_width,
    ensures
        curve(a, out_width, input_width) <= curve(b, out_width, input_width),
{
    let d = out_width - input_width;
    let g = a / out_width;
    let f = b / out_width;
    let r = b - a;
    let e = d * (f - f * f) - d * (g - g * g);
    let h = 2real * d;
    curve_left(a, out_width, input_width);
    curve_left(b, out_width, input_width);
    quotient_times_divisor(a, out_width);
    quotient_times_divisor(b, out_width);
    assert(0real <= g && 2real * f <= 1real && g <= f) by (nonlinear_arith)
        requires
            g * out_width == a,
            f * out_width == b,
            out_width > 0real,
            0real <= a <= b,
            2real * b <= out_width,
    ;
    bend_rise(h, g, f, out_width, r);
    assert(h * (f - f * f) - h * (g - g * g) == 2real * e) by (nonlinear_arith)
        requires
            h == 2real * d,
            e == d * (f - f * f) - d * (g - g * g),
    ;
    assert(curve(b, out_width, input_width) - curve(a, out_width, input_width) == r - 2real * e);
}

/// The curve does not fall, where the output is the wider one, but no more than
/// twice as wide.
pub proof fn curve_never_falls(a: real, b: real, out_width: real, input_width: real)
    requires
        out_width > 0real,
        0real <= a <= b <= out_width,
        input_width <= out_width <= 2real * input_width,
    ensures
        curve(a, out_width, input_width) <= curve(b, out_width, input_width),
{
    let h = out_width / 2real;
    if b <= h {
        left_half_never_falls(a, b, out_width, input_width);
    } else if a >= h {
        curve_mirrors(out_width - a, out_width, input_width);
        curve_mirrors(out_width - b, out_width, input_width);
        left_half_never_falls(out_width - b, out_width - a, out_width, input_width);
    } else {
        curve_leaves_middle(a, out_width, input_width);
        curve_leaves_middle(b, out_width, input_width);
    }
}

} // verus!
