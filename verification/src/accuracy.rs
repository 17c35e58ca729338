//! How close the computed curve is to the curve.

use vstd::prelude::*;

use crate::binary64::{of_nat, Binary64};
use crate::curve::{abs_product, curve, place, quotient_times_divisor};
use crate::reals::{
    below_is_less, cancel, constants_are_exact, difference_is_near, is_exactly, near_within, p2,
    product_is_near, quotient_is_near, real_abs, unit, unit_is_power, whole_is_exact,
};
use crate::remap::{source, HALF, MINUS_ONE, TWO, WIDEST};

verus! {

/// 2 to the power -52.
pub open spec fn step() -> real {
    2real * unit()
}

/// A bound on the sizes of a picture.
pub open spec fn reach(out_width: nat, input_width: nat) -> real {
    if out_width < input_width {
        input_width as real
    } else {
        out_width as real
    }
}

/// The error of a column computed for pictures of a size.
#[verifier::opaque]
pub open spec fn error_at(size: real) -> real {
    32real * (size * step())
}

/// The error of a computed column.
pub open spec fn tolerance(out_width: nat, input_width: nat) -> real {
    error_at(reach(out_width, input_width))
}

/// The computed place of a column.
pub proof fn place_is_near(x: Binary64, out_width: nat) -> (t: Binary64)
    requires
        x.is_finite(),
        0real <= x.value() <= out_width as real,
        1 <= out_width <= u32::MAX,
    ensures
        t == x.over(of_nat(out_width)).minus(Binary64 { bits: HALF }).times(
            Binary64 { bits: TWO },
        ),
        t.is_finite(),
        real_abs(t.value() - place(x.value(), out_width as real)) <= 6real * step(),
        -1real <= place(x.value(), out_width as real) <= 1real,
{
    let xr = x.value();
    let w = out_width as real;
    let out = of_nat(out_width);
    let half = Binary64 { bits: HALF };
    let two = Binary64 { bits: TWO };
    unit_is_power();
    constants_are_exact();
    whole_is_exact(out_width);
    let g = xr / w;
    quotient_times_divisor(xr, w);
    assert(0real * w == 0real && 1real * w == w) by (nonlinear_arith);
    cancel(0real, g, w);
    cancel(g, 1real, w);
    quotient_is_near(x, out, g);
    let q = x.over(out);
    near_within(q, g, 1real);
    difference_is_near(q, half);
    let a = q.minus(half);
    near_within(a, q.value() - 1real / 2real, 1real);
    product_is_near(a, two);
    let t = a.times(two);
    near_within(t, a.value() * 2real, 2real);
    t
}

/// The square of the computed place of a column.
proof fn square_is_near(t: Binary64, p: real)
    requires
        t.is_finite(),
        real_abs(t.value() - p) <= 6real * step(),
        -1real <= p <= 1real,
    ensures
        t.times(t).is_finite(),
        real_abs(t.times(t).value() - p * p) <= 15real * step(),
        0real <= p * p <= 1real,
{
    let u = step();
    let v = t.value();
    unit_is_power();
    assert(0real < u < 1real / 1000000real);
    let e = v - p;
    let f = v + p;
    assert(v * v - p * p == e * f) by (nonlinear_arith)
        requires
            e == v - p,
            f == v + p,
    ;
    abs_product(e, f, 6real * u, 13real / 6real);
    assert((6real * u) * (13real / 6real) == 13real * u);
    abs_product(p, p, 1real, 1real);
    assert(p * p >= 0real) by (nonlinear_arith);
    product_is_near(t, t);
    near_within(t.times(t), v * v, 2real);
}

/// Half the difference of the widths.
proof fn half_diff_is_near(out_width: nat, input_width: nat) -> (h: Binary64)
    requires
        1 <= out_width <= u32::MAX,
        input_width <= u32::MAX,
    ensures
        h == of_nat(out_width).minus(of_nat(input_width)).over(Binary64 { bits: TWO }),
        h.is_finite(),
        real_abs(h.value() - (out_width as real - input_width as real) / 2real) <= 2real * (reach(
            out_width,
            input_width,
        ) * step()),
{
    let a = of_nat(out_width);
    let b = of_nat(input_width);
    let two = Binary64 { bits: TWO };
    let y = reach(out_width, input_width);
    unit_is_power();
    constants_are_exact();
    whole_is_exact(out_width);
    whole_is_exact(input_width);
    difference_is_near(a, b);
    let d = a.minus(b);
    near_within(d, a.value() - b.value(), y);
    let u = step();
    abs_product(y, u, y, 1real / 1000000real);
    quotient_is_near(d, two, d.value() / 2real);
    let h = d.over(two);
    near_within(h, d.value() / 2real, y);
    h
}

/// An error in proportion to the sizes of a picture is small.
pub proof fn small_step(y: real)
    requires
        y >= 1real,
    ensures
        0real < y * step() <= y / 1000000real,
{
    let u = step();
    abs_product(y, u, y, 1real / 1000000real);
    assert(y * u > 0real) by (nonlinear_arith)
        requires
            y >= 1real,
            u > 0real,
    ;
}

/// A product of two numbers that are known to within an error.
proof fn offset_is_near(sq: Binary64, hd: Binary64, s: real, h: real, y: real)
    requires
        sq.is_finite(),
        hd.is_finite(),
        real_abs(sq.value() - s) <= 15real * step(),
        0real <= s <= 1real,
        real_abs(hd.value() - h) <= 2real * (y * step()),
        real_abs(h) <= y / 2real,
        1real <= y <= 4294967296real,
    ensures
        sq.times(hd).is_finite(),
        real_abs(sq.times(hd).value() - s * h) <= 19real * (y * step()),
        real_abs(s * h) <= y / 2real,
{
    let u = step();
    let a = sq.value();
    let b = hd.value();
    let yu = y * u;
    unit_is_power();
    assert(0real < u < 1real / 1000000real);
    small_step(y);
    let da = a - s;
    let db = b - h;
    assert(a * b - s * h == da * b + s * db) by (nonlinear_arith)
        requires
            da == a - s,
            db == b - h,
    ;
    abs_product(da, b, 15real * u, y);
    assert((15real * u) * y == 15real * yu) by (nonlinear_arith)
        requires
            yu == y * u,
    ;
    abs_product(s, db, 1real, 2real * yu);
    abs_product(s, h, 1real, y / 2real);
    abs_product(a, b, 2real, y);
    product_is_near(sq, hd);
    let o = sq.times(hd);
    near_within(o, a * b, 2real * y);
    assert((2real * y) * u == 2real * yu) by (nonlinear_arith)
        requires
            yu == y * u,
    ;
}

/// The last steps of the curve: the offset is taken away, with its sign.
proof fn moved_is_near(sx: Binary64, o: Binary64, flip: bool, a: real, m: real, y: real)
    requires
        sx.is_finite(),
        o.is_finite(),
        real_abs(sx.value() - a) <= 4real * (y * step()),
        real_abs(o.value() - m) <= 19real * (y * step()),
        real_abs(a) <= 3real * y / 2real,
        real_abs(m) <= y / 2real,
        1real <= y <= 4294967296real,
    ensures
        flip ==> sx.minus(o.times(Binary64 { bits: MINUS_ONE })).is_finite(),
        flip ==> real_abs(
            sx.minus(o.times(Binary64 { bits: MINUS_ONE })).value() - (a + m),
        ) <= 31real * (y * step()),
        !flip ==> sx.minus(o).is_finite(),
        !flip ==> real_abs(sx.minus(o).value() - (a - m)) <= 31real * (y * step()),
{
    let u = step();
    let yu = y * u;
    let minus = Binary64 { bits: MINUS_ONE };
    unit_is_power();
    constants_are_exact();
    small_step(y);
    assert((4real * y) * u == 4real * yu) by (nonlinear_arith)
        requires
            yu == y * u,
    ;
    if flip {
        let n = o.times(minus);
        assert(o.value() * (-1real) == -o.value());
        product_is_near(o, minus);
        near_within(n, -o.value(), y);
        difference_is_near(sx, n);
        near_within(sx.minus(n), sx.value() - n.value(), 4real * y);
    } else {
        difference_is_near(sx, o);
        near_within(sx.minus(o), sx.value() - o.value(), 4real * y);
    }
}

/// Where the computed place has the wrong sign, the column is next to the
/// middle and hardly moves.
proof fn sign_matters_little(p: real, t: real, h: real, y: real)
    requires
        real_abs(t - p) <= 6real * step(),
        real_abs(h) <= y / 2real,
        y > 0real,
        (p < 0real) != (t < 0real),
    ensures
        real_abs((p * p) * h) <= (y * step()) / 4real,
{
    let u = step();
    let s = p * p;
    let yu = y * u;
    assert(0real < u < 1real / 1000000real);
    abs_product(p, p, 6real * u, 6real * u);
    assert((6real * u) * (6real * u) == 36real * (u * u)) by (nonlinear_arith);
    abs_product(u, u, u, 1real / 1000000real);
    abs_product(s, h, u / 2real, y / 2real);
    assert((u / 2real) * (y / 2real) == yu / 4real) by (nonlinear_arith)
        requires
            yu == y * u,
    ;
}

/// The computed curve is close to the curve.
pub proof fn source_is_near(x: Binary64, out_width: nat, input_width: nat)
    requires
        x.is_finite(),
        0real <= x.value() <= out_width as real,
        1 <= out_width <= u32::MAX,
        input_width <= u32::MAX,
    ensures
        source(x, of_nat(out_width), of_nat(input_width)).is_finite(),
        real_abs(
            source(x, of_nat(out_width), of_nat(input_width)).value() - curve(
                x.value(),
                out_width as real,
                input_width as real,
            ),
        ) <= tolerance(out_width, input_width),
{
    reveal(error_at);
    let y = reach(out_width, input_width);
    let u = step();
    let yu = y * u;
    let d = out_width as real - input_width as real;
    let h = d / 2real;
    let p = place(x.value(), out_width as real);
    let s = p * p;
    small_step(y);
    let hd = half_diff_is_near(out_width, input_width);
    let t = place_is_near(x, out_width);
    square_is_near(t, p);
    let sq = t.times(t);
    offset_is_near(sq, hd, s, h, y);
    let o = sq.times(hd);
    let zero = Binary64 { bits: 0 };
    assert(is_exactly(0, 0real)) by {
        constants_are_exact();
    }
    below_is_less(t, zero);
    assert(p2(900) >= 1152921504606846976real) by {
        unit_is_power();
    }
    difference_is_near(x, hd);
    let sx = x.minus(hd);
    near_within(sx, x.value() - hd.value(), 2real * y);
    assert((2real * y) * u == 2real * yu) by (nonlinear_arith)
        requires
            yu == y * u,
    ;
    let flip = t.below(zero);
    moved_is_near(sx, o, flip, x.value() - h, s * h, y);
    if (p < 0real) != flip {
        sign_matters_little(p, t.value(), h, y);
    }
    if flip {
        assert(source(x, of_nat(out_width), of_nat(input_width)) == sx.minus(
            o.times(Binary64 { bits: MINUS_ONE }),
        ));
    } else {
        assert(source(x, of_nat(out_width), of_nat(input_width)) == sx.minus(o));
    }
}

/// An error in proportion to a size is small.
pub proof fn error_is_small(y: real)
    requires
        0real < y <= 4294967295real,
    ensures
        0real < error_at(y) <= 1real / 32768real,
        y <= 1048576real ==> error_at(y) <= 1real / 134217728real,
        y <= 32768real ==> error_at(y) <= 1real / 4294967296real,
{
    reveal(error_at);
    let u = step();
    assert(u == 1real / 4503599627370496real);
    let e = y * u;
    assert(e == y / 4503599627370496real) by (nonlinear_arith)
        requires
            e == y * u,
            u == 1real / 4503599627370496real,
    ;
}

/// The error of a computed column is small.
pub proof fn tolerance_is_small(out_width: nat, input_width: nat)
    requires
        1 <= out_width <= u32::MAX,
        input_width <= u32::MAX,
    ensures
        0real < tolerance(out_width, input_width) <= 1real / 32768real,
        out_width <= WIDEST && input_width <= out_width ==> tolerance(out_width, input_width)
            <= 1real / 134217728real,
        out_width <= 32768 && input_width <= out_width ==> tolerance(out_width, input_width)
            <= 1real / 4294967296real,
{
    error_is_small(reach(out_width, input_width));
}

} // verus!
