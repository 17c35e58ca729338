//! What holds of remap tables.
//!
//! The tables are computed with rounded numbers; here they are shown to stay close
//! enough to the curve for what is wanted of them: that a table begins and ends
//! with the picture, keeps its middle and never goes back, that stretching loses
//! no column, and that squeezing undoes it.

use vstd::prelude::*;

use crate::accuracy::{error_at, source_is_near, tolerance, tolerance_is_small};
use crate::binary64::{abs, clamped, of_nat, Binary64};
use crate::curve::{
    curve, curve_begins, curve_draws_together, curve_is_straight, curve_leaves_edge,
    curve_leaves_middle, curve_left, curve_mirrors, curve_never_falls, curve_never_spreads,
    curve_right, curve_stays_below, left_half_rises, middle_rises, near_middle,
    quotient_times_divisor,
};
use crate::halving::{
    middle, middle_parts, narrowed, search_narrows, searches_in_order, share, shares,
};
use crate::reals::{
    below_is_less, cancel, constants_are_exact, is_exactly, product_is_real, real_abs,
    rounded_is_near, rounding_keeps_order, whole_is_exact,
};
use crate::remap::{last_column, search, source, squeezed, stretched, HALVINGS, WIDEST};

verus! {

/// From one column to the next, the curve rises by more than twice the error of
/// a computed column, but for columns that lie at the very edge of the input.
proof fn curve_rises(x: int, out_width: nat, input_width: nat)
    requires
        0 <= x,
        x + 1 < out_width <= u32::MAX,
        input_width <= u32::MAX,
        out_width <= WIDEST || 3 * out_width <= 4 * input_width,
    ensures
        ({
            let a = curve(x as real, out_width as real, input_width as real);
            let b = curve((x + 1) as real, out_width as real, input_width as real);
            let t = tolerance(out_width, input_width);
            ||| b >= a + 2real * t
            ||| a + t < 1real / 2real
            ||| b - t >= input_width as real - 1real / 2real
        }),
{
    let w = out_width as real;
    let v = input_width as real;
    let xr = x as real;
    let a = curve(xr, w, v);
    let b = curve(xr + 1real, w, v);
    let t = tolerance(out_width, input_width);
    tolerance_is_small(out_width, input_width);
    assert((x + 1) as real == xr + 1real);
    if 2 * (x + 1) <= out_width {
        left_half_rises(xr, w, v);
        if input_width <= out_width <= WIDEST && a >= 1real / 4real {
            enough(xr, b - a, a);
        }
    } else if 2 * x >= out_width {
        let y = w - xr - 1real;
        left_half_rises(y, w, v);
        curve_mirrors(y, w, v);
        curve_mirrors(y + 1real, w, v);
        let c = curve(y, w, v);
        if input_width <= out_width <= WIDEST && c >= 1real / 4real {
            enough(y, b - a, c);
        }
    } else {
        assert(out_width == 2 * x + 1);
        middle_rises(xr, w, v);
    }
}

/// A rise in proportion to what has risen is more than twice a small error.
proof fn enough(x: real, rise: real, risen: real)
    requires
        0real <= x <= 1048576real,
        x * rise >= risen,
        risen >= 1real / 4real,
    ensures
        rise >= 1real / 67108864real,
{
    if rise < 1real / 67108864real {
        assert(x * rise <= 1real / 64real) by (nonlinear_arith)
            requires
                0real <= x <= 1048576real,
                rise < 1real / 67108864real,
        ;
    }
}

/// A computed column of a stretched picture.
proof fn column_is_near(x: int, input_width: u32, out_width: u32) -> (s: Binary64)
    requires
        input_width >= 1,
        0 <= x <= out_width,
        out_width >= 1,
    ensures
        s.is_finite(),
        stretched(x, input_width, out_width) == clamped(
            s.rounded(),
            0,
            last_column(input_width),
        ),
        real_abs(s.value() - curve(x as real, out_width as real, input_width as real))
            <= tolerance(out_width as nat, input_width as nat),
{
    whole_is_exact(x as nat);
    source_is_near(of_nat(x as nat), out_width as nat, input_width as nat);
    let s = source(
        of_nat(x as nat),
        of_nat(out_width as nat),
        of_nat(input_width as nat),
    );
    assert(!s.is_nan() && !s.is_infinite());
    s
}

/// Columns that are in order, or at an edge, are in order once they are rounded.
proof fn rounded_in_order(a: Binary64, b: Binary64, input_width: u32)
    requires
        a.is_finite(),
        b.is_finite(),
        input_width >= 1,
        a.value() <= b.value() || a.value() < 1real / 2real || b.value() >= input_width as real
            - 1real / 2real,
    ensures
        clamped(a.rounded(), 0, last_column(input_width)) <= clamped(
            b.rounded(),
            0,
            last_column(input_width),
        ),
{
    rounded_is_near(a);
    rounded_is_near(b);
    if a.value() <= b.value() {
        rounding_keeps_order(a, b);
    }
}

/// What is within an error of numbers that are in order, or at an edge.
proof fn near_in_order(a: real, b: real, p: real, q: real, t: real, w: real)
    requires
        real_abs(a - p) <= t,
        real_abs(b - q) <= t,
        q >= p + 2real * t || p + t < 1real / 2real || q - t >= w - 1real / 2real,
    ensures
        a <= b || a < 1real / 2real || b >= w - 1real / 2real,
{
}

/// Neighbouring columns of a stretched picture are in order.
proof fn next_column(x: int, input_width: u32, out_width: u32)
    requires
        input_width >= 1,
        0 <= x,
        x + 1 < out_width,
        out_width <= WIDEST || 3 * out_width <= 4 * input_width,
    ensures
        stretched(x, input_width, out_width) <= stretched(x + 1, input_width, out_width),
{
    let w = out_width as real;
    let v = input_width as real;
    let a = column_is_near(x, input_width, out_width);
    let b = column_is_near(x + 1, input_width, out_width);
    curve_rises(x, out_width as nat, input_width as nat);
    near_in_order(
        a.value(),
        b.value(),
        curve(x as real, w, v),
        curve((x + 1) as real, w, v),
        tolerance(out_width as nat, input_width as nat),
        v,
    );
    rounded_in_order(a, b, input_width);
}

/// A stretched picture never goes back: each column shows the column of the
/// input that the ones before it show, or a later one. This is so for outputs of
/// up to a million columns, and for any that are at most a third wider than
/// their input.
pub proof fn stretched_never_goes_back(x: int, y: int, input_width: u32, out_width: u32)
    requires
        input_width >= 1,
        0 <= x <= y < out_width,
        out_width <= WIDEST || 3 * out_width <= 4 * input_width,
    ensures
        stretched(x, input_width, out_width) <= stretched(y, input_width, out_width),
    decreases y - x,
{
    if x < y {
        stretched_never_goes_back(x, y - 1, input_width, out_width);
        next_column(y - 1, input_width, out_width);
    }
}

/// Every column shows a column of the input that a table can name.
pub proof fn columns_lie_in_the_input(x: int, input_width: u32, out_width: u32)
    requires
        input_width >= 1,
    ensures
        0 <= stretched(x, input_width, out_width) <= last_column(input_width) < input_width,
        0 <= squeezed(x, input_width, out_width) <= last_column(input_width),
{
}

/// A stretched picture begins with the first column of the input.
pub proof fn stretched_begins_with_the_picture(input_width: u32, out_width: u32)
    requires
        input_width >= 1,
        out_width >= 1,
    ensures
        stretched(0, input_width, out_width) == 0,
{
    let s = column_is_near(0, input_width, out_width);
    tolerance_is_small(out_width as nat, input_width as nat);
    curve_begins(out_width as real, input_width as real);
    rounded_is_near(s);
}

/// A picture that is made wider ends with the last column of the input that a
/// table can name.
pub proof fn stretched_ends_with_the_picture(input_width: u32, out_width: u32)
    requires
        1 <= input_width <= out_width,
    ensures
        stretched(out_width - 1, input_width, out_width) == last_column(input_width),
{
    let w = out_width as real;
    let v = input_width as real;
    let s = column_is_near(out_width - 1, input_width, out_width);
    tolerance_is_small(out_width as nat, input_width as nat);
    if out_width == 1 {
        curve_begins(w, v);
    } else {
        curve_mirrors(1real, w, v);
        curve_stays_below(1real, w, v);
        assert((out_width - 1) as real == w - 1real);
    }
    rounded_is_near(s);
}

/// The middle column of a stretched picture shows the middle column of the
/// input.
pub proof fn stretched_keeps_the_middle(input_width: u32, out_width: u32)
    requires
        input_width >= 1,
        out_width >= 1,
        input_width % 2 == 0,
        out_width % 2 == 0,
    ensures
        stretched(out_width as int / 2, input_width, out_width) == clamped(
            input_width as int / 2,
            0,
            last_column(input_width),
        ),
{
    let w = out_width as real;
    let v = input_width as real;
    let s = column_is_near(out_width as int / 2, input_width, out_width);
    tolerance_is_small(out_width as nat, input_width as nat);
    let d = real_abs(w - v);
    assert(2real * ((0real * 0real) * d) == 0real && w * w >= 0real) by (nonlinear_arith);
    near_middle(0real, d, w, v);
    assert((out_width as int / 2) as real == w / 2real);
    assert((input_width as int / 2) as real == v / 2real);
    rounded_is_near(s);
}

/// An inequality of integers as one of real numbers.
proof fn squares_are_real(e: int, d: int, w: int)
    requires
        2 * ((e * e) * d) <= w * w,
    ensures
        2real * ((e as real * e as real) * d as real) <= w as real * w as real,
{
    let s = e * e;
    let er = e as real;
    let dr = d as real;
    let sr = s as real;
    product_is_real(e, e);
    product_is_real(s, d);
    product_is_real(w, w);
    assert((er * er) * dr == sr * dr) by (nonlinear_arith)
        requires
            sr == er * er,
    ;
}

/// Near the middle a stretched picture keeps its scale: a column that is `e`
/// columns from the middle shows one that is `e` columns from the middle, give
/// or take one.
pub proof fn stretched_keeps_the_scale_at_the_middle(e: int, input_width: u32, out_width: u32)
    requires
        input_width >= 1,
        out_width >= 1,
        input_width % 2 == 0,
        out_width % 2 == 0,
        0 <= out_width as int / 2 + e < out_width,
        0 <= input_width as int / 2 + e <= last_column(input_width),
        2 * ((e * e) * abs(out_width - input_width)) <= out_width * out_width,
    ensures
        -1 <= stretched(out_width as int / 2 + e, input_width, out_width) - (input_width as int
            / 2 + e) <= 1,
{
    let w = out_width as real;
    let v = input_width as real;
    let s = column_is_near(out_width as int / 2 + e, input_width, out_width);
    tolerance_is_small(out_width as nat, input_width as nat);
    let er = e as real;
    let d = abs(out_width - input_width) as int;
    squares_are_real(e, d, out_width as int);
    near_middle(er, d as real, w, v);
    assert((out_width as int / 2 + e) as real == w / 2real + er);
    assert((input_width as int / 2 + e) as real == v / 2real + er);
    rounded_is_near(s);
}

// ---------------------------------------------------------------------------
// Laws of squeezed pictures
// ---------------------------------------------------------------------------

/// The interval that the search for a column starts with.
proof fn whole_interval(input_width: u32)
    requires
        input_width >= 1,
    ensures
        narrowed((Binary64 { bits: 0 }), of_nat(input_width as nat), input_width as real, 0),
        is_exactly(0, 0real),
        of_nat(input_width as nat).value() == input_width as real,
{
    constants_are_exact();
    whole_is_exact(input_width as nat);
    shares(input_width as real);
}

/// A computed column of a squeezed picture, before it is rounded.
spec fn squeezed_place(s: int, input_width: u32, out_width: u32) -> Binary64 {
    let in_w = of_nat(input_width as nat);
    let out_w = of_nat(out_width as nat);
    let (lo, hi) = search(
        Binary64 { bits: 0 },
        in_w,
        of_nat(s as nat),
        in_w,
        out_w,
        HALVINGS as nat,
    );
    middle(lo, hi)
}

/// A computed column of a squeezed picture lies in the input.
proof fn squeezed_place_is_inside(s: int, input_width: u32, out_width: u32)
    requires
        input_width >= 1,
    ensures
        squeezed_place(s, input_width, out_width).is_finite(),
        0real <= squeezed_place(s, input_width, out_width).value() <= input_width as real,
        squeezed(s, input_width, out_width) == clamped(
            squeezed_place(s, input_width, out_width).rounded(),
            0,
            last_column(input_width),
        ),
{
    let in_w = of_nat(input_width as nat);
    let out_w = of_nat(out_width as nat);
    let zero = Binary64 { bits: 0 };
    let (lo, hi) = search(zero, in_w, of_nat(s as nat), in_w, out_w, HALVINGS as nat);
    whole_interval(input_width);
    search_narrows(zero, in_w, of_nat(s as nat), input_width as nat, out_width as nat, 48);
    middle_parts(lo, hi, input_width as real, 48);
    let m = squeezed_place(s, input_width, out_width);
    assert(m.is_finite() && !m.is_nan() && !m.is_infinite());
}

/// A squeezed picture never goes back: each column shows the column of the input
/// that the ones before it show, or a later one.
pub proof fn squeezed_never_goes_back(s: int, t: int, input_width: u32, out_width: u32)
    requires
        input_width >= 1,
        0 <= s <= t < out_width,
    ensures
        squeezed(s, input_width, out_width) <= squeezed(t, input_width, out_width),
{
    let in_w = of_nat(input_width as nat);
    let out_w = of_nat(out_width as nat);
    let zero = Binary64 { bits: 0 };
    let w = input_width as real;
    let (l, h) = search(zero, in_w, of_nat(s as nat), in_w, out_w, HALVINGS as nat);
    let (k, j) = search(zero, in_w, of_nat(t as nat), in_w, out_w, HALVINGS as nat);
    whole_interval(input_width);
    whole_is_exact(s as nat);
    whole_is_exact(t as nat);
    search_narrows(zero, in_w, of_nat(s as nat), input_width as nat, out_width as nat, 48);
    search_narrows(zero, in_w, of_nat(t as nat), input_width as nat, out_width as nat, 48);
    middle_parts(l, h, w, 48);
    middle_parts(k, j, w, 48);
    searches_in_order(
        zero,
        in_w,
        of_nat(s as nat),
        of_nat(t as nat),
        input_width as nat,
        out_width as nat,
        48,
    );
    squeezed_place_is_inside(s, input_width, out_width);
    squeezed_place_is_inside(t, input_width, out_width);
    rounded_in_order(
        squeezed_place(s, input_width, out_width),
        squeezed_place(t, input_width, out_width),
        input_width,
    );
}

/// The last interval of the search is no wider than the error of a column.
proof fn last_interval_is_small(input_width: nat, out_width: nat)
    requires
        1 <= input_width <= u32::MAX,
        out_width <= input_width,
    ensures
        22real * share(input_width as real, 52) <= tolerance(input_width, out_width),
        share(input_width as real, 48) == 16real * share(input_width as real, 52),
{
    shares(input_width as real);
    reveal(error_at);
}

/// An end of the last interval, and what the curve has there.
proof fn end_is_near(l: Binary64, s: int, input_width: nat, out_width: nat)
    requires
        l.is_finite(),
        0real <= l.value() <= input_width as real,
        0 <= s <= u32::MAX,
        1 <= input_width <= u32::MAX,
        out_width <= u32::MAX,
    ensures
        ({
            let c = curve(l.value(), input_width as real, out_width as real);
            let e = tolerance(input_width, out_width);
            if source(l, of_nat(input_width), of_nat(out_width)).below(of_nat(s as nat)) {
                c < s as real + e
            } else {
                c >= s as real - e
            }
        }),
{
    whole_is_exact(s as nat);
    source_is_near(l, input_width, out_width);
    below_is_less(source(l, of_nat(input_width), of_nat(out_width)), of_nat(s as nat));
}

/// The computed column of a squeezed picture lies where the curve has the
/// target.
proof fn squeezed_place_is_near(s: int, input_width: u32, out_width: u32)
    requires
        0 <= s < out_width <= input_width,
    ensures
        real_abs(
            curve(
                squeezed_place(s, input_width, out_width).value(),
                input_width as real,
                out_width as real,
            ) - s as real,
        ) <= 2real * tolerance(input_width as nat, out_width as nat),
{
    let in_w = of_nat(input_width as nat);
    let out_w = of_nat(out_width as nat);
    let zero = Binary64 { bits: 0 };
    let w = input_width as real;
    let v = out_width as real;
    let (l, h) = search(zero, in_w, of_nat(s as nat), in_w, out_w, HALVINGS as nat);
    let m = middle(l, h);
    whole_interval(input_width);
    search_narrows(zero, in_w, of_nat(s as nat), input_width as nat, out_width as nat, 48);
    middle_parts(l, h, w, 48);
    last_interval_is_small(input_width as nat, out_width as nat);
    tolerance_is_small(input_width as nat, out_width as nat);
    end_is_near(l, s, input_width as nat, out_width as nat);
    end_is_near(h, s, input_width as nat, out_width as nat);
    curve_begins(w, v);
    curve_mirrors(0real, w, v);
    curve_never_spreads(l.value(), m.value(), w, v);
    curve_never_spreads(m.value(), h.value(), w, v);
}

/// The computed column of a squeezed picture lies before the right edge.
proof fn squeezed_place_is_before_edge(s: int, input_width: u32, out_width: u32)
    requires
        0 <= s < out_width <= input_width,
    ensures
        squeezed_place(s, input_width, out_width).value() < input_width as real - 1real / 2real,
        0 <= squeezed_place(s, input_width, out_width).rounded() <= input_width - 1,
{
    let w = input_width as real;
    let v = out_width as real;
    let m = squeezed_place(s, input_width, out_width);
    squeezed_place_is_inside(s, input_width, out_width);
    squeezed_place_is_near(s, input_width, out_width);
    tolerance_is_small(input_width as nat, out_width as nat);
    if m.value() >= w - 1real / 2real {
        let y = w - m.value();
        curve_mirrors(y, w, v);
        curve_stays_below(y, w, v);
    }
    rounded_is_near(m);
}

/// Squeezing undoes stretching: if a picture is stretched, and the result is
/// squeezed to the width that it had, then each column shows the column that it
/// showed first, give or take one. The wider of the two pictures has no more
/// columns than a table can name.
pub proof fn squeezing_undoes_stretching(s: int, narrow: u32, wide: u32)
    requires
        0 <= s < narrow <= wide <= 65536,
    ensures
        0 <= squeezed(s, wide, narrow) < wide,
        -1 <= stretched(squeezed(s, wide, narrow), narrow, wide) - s <= 1,
{
    let w = wide as real;
    let v = narrow as real;
    let m = squeezed_place(s, wide, narrow);
    squeezed_place_is_inside(s, wide, narrow);
    squeezed_place_is_before_edge(s, wide, narrow);
    squeezed_place_is_near(s, wide, narrow);
    tolerance_is_small(wide as nat, narrow as nat);
    rounded_is_near(m);
    let x = m.rounded();
    let c = column_is_near(x, narrow, wide);
    rounded_is_near(c);
    if x as real <= m.value() {
        curve_never_spreads(x as real, m.value(), w, v);
    } else {
        curve_never_spreads(m.value(), x as real, w, v);
    }
}

/// A squeezed picture begins with the first column of the input, if it is no
/// less than half as wide.
pub proof fn squeezed_begins_with_the_picture(input_width: u32, out_width: u32)
    requires
        1 <= out_width <= input_width <= WIDEST,
        input_width <= 2 * out_width,
    ensures
        squeezed(0, input_width, out_width) == 0,
{
    let w = input_width as real;
    let v = out_width as real;
    let m = squeezed_place(0, input_width, out_width);
    let x = m.value();
    squeezed_place_is_inside(0, input_width, out_width);
    squeezed_place_is_near(0, input_width, out_width);
    tolerance_is_small(input_width as nat, out_width as nat);
    rounded_is_near(m);
    if x >= 1real / 2real {
        if 2real * x <= w {
            curve_leaves_edge(x, w, v);
            far_from_edge(x, curve(x, w, v), w);
        } else {
            curve_leaves_middle(x, w, v);
        }
    }
}

/// What lies half a column from the edge does not lie at the edge.
proof fn far_from_edge(x: real, c: real, w: real)
    requires
        x >= 1real / 2real,
        0real < w <= 1048576real,
        w * c >= x * x,
    ensures
        c >= 1real / 4194304real,
{
    assert(x * x >= 1real / 4real) by (nonlinear_arith)
        requires
            x >= 1real / 2real,
    ;
    assert(c >= 1real / 4194304real) by (nonlinear_arith)
        requires
            w * c >= 1real / 4real,
            0real < w <= 1048576real,
    ;
}

/// The middle column of a squeezed picture shows the middle column of the input,
/// if the picture is no less than half as wide.
pub proof fn squeezed_keeps_the_middle(input_width: u32, out_width: u32)
    requires
        1 <= out_width <= input_width,
        input_width <= 2 * out_width,
        input_width % 2 == 0,
        out_width % 2 == 0,
    ensures
        squeezed(out_width as int / 2, input_width, out_width) == clamped(
            input_width as int / 2,
            0,
            last_column(input_width),
        ),
{
    let w = input_width as real;
    let v = out_width as real;
    let s = out_width as int / 2;
    let m = squeezed_place(s, input_width, out_width);
    squeezed_place_is_inside(s, input_width, out_width);
    squeezed_place_is_near(s, input_width, out_width);
    tolerance_is_small(input_width as nat, out_width as nat);
    rounded_is_near(m);
    curve_leaves_middle(m.value(), w, v);
    assert(s as real == v / 2real);
    assert((input_width as int / 2) as real == w / 2real);
}

/// The last column of a squeezed picture shows the last column of the input or
/// the one before it, if the picture is no less than three quarters as wide.
pub proof fn squeezed_ends_with_the_picture(input_width: u32, out_width: u32)
    requires
        3 <= out_width <= input_width <= 65536,
        3 * input_width <= 4 * out_width,
    ensures
        input_width - 2 <= squeezed(out_width - 1, input_width, out_width) <= input_width - 1,
{
    let w = input_width as real;
    let v = out_width as real;
    let s = out_width - 1;
    let m = squeezed_place(s, input_width, out_width);
    let y = w - m.value();
    squeezed_place_is_inside(s, input_width, out_width);
    squeezed_place_is_before_edge(s, input_width, out_width);
    squeezed_place_is_near(s, input_width, out_width);
    tolerance_is_small(input_width as nat, out_width as nat);
    rounded_is_near(m);
    curve_mirrors(y, w, v);
    if 2real * y <= w {
        curve_leaves_edge(y, w, v);
    } else {
        curve_leaves_middle(m.value(), w, v);
    }
}

// ---------------------------------------------------------------------------
// No column is lost
// ---------------------------------------------------------------------------

/// Columns of these two pictures can be told apart: computing them is precise
/// enough. That is so for fewer than 32768 columns, and for a million if the
/// widths differ by a sixteenth; and for one width.
pub open spec fn told_apart(wide: u32, narrow: u32) -> bool {
    ||| wide == narrow
    ||| wide < 32768
    ||| wide <= WIDEST && 16 * (wide - narrow) >= wide
}

/// A rise that falls short of one does so by more than four times the error of a
/// column.
proof fn falls_short(rise: real, w: real, d: real, t: real)
    requires
        (w * w) * (1real - rise) >= d,
        w >= 1real,
        t > 0real,
        (w <= 32767real && d >= 1real && t <= 1real / 4294967296real) || (w <= 1048576real && 16real
            * d >= w && t <= 1real / 134217728real),
    ensures
        rise < 1real - 4real * t,
{
    let ww = w * w;
    let e = 1real - rise;
    if e <= 4real * t {
        if w <= 32767real && d >= 1real && t <= 1real / 4294967296real {
            assert(ww <= 1073676289real && ww >= 0real) by (nonlinear_arith)
                requires
                    ww == w * w,
                    1real <= w <= 32767real,
            ;
            assert(ww * e < 1real) by (nonlinear_arith)
                requires
                    0real <= ww <= 1073676289real,
                    e <= 1real / 1073741824real,
            ;
        } else {
            assert(ww * e <= w / 32real) by (nonlinear_arith)
                requires
                    ww == w * w,
                    1real <= w <= 1048576real,
                    e <= 1real / 33554432real,
            ;
        }
    }
}

/// From one column to the next the curve rises by less than one, by more than
/// four times the error of a column.
proof fn rise_is_below_one(x: real, wide: u32, narrow: u32)
    requires
        0real <= x,
        x + 1real <= wide as real,
        1 <= narrow < wide,
        told_apart(wide, narrow),
    ensures
        curve(x + 1real, wide as real, narrow as real) - curve(x, wide as real, narrow as real)
            < 1real - 4real * tolerance(wide as nat, narrow as nat),
{
    let w = wide as real;
    let v = narrow as real;
    curve_draws_together(x, w, v);
    tolerance_is_small(wide as nat, narrow as nat);
    falls_short(
        curve(x + 1real, w, v) - curve(x, w, v),
        w,
        w - v,
        tolerance(wide as nat, narrow as nat),
    );
}

/// Numbers less than one apart round to neighbours at most.
proof fn neighbours_at_most(a: real, b: real, i: int, j: int, high: int)
    requires
        b - a < 1real,
        2real * (i as real) + 1real >= 2real * a,
        2real * (j as real) - 1real <= 2real * b,
        high >= 0,
    ensures
        clamped(j, 0, high) <= clamped(i, 0, high) + 1,
{
    let d: int = j - i;
    let e = d as real;
    assert(e == (j as real) - (i as real));
    assert(e < 2real);
    assert(d < 2);
}

/// A picture that keeps its width keeps each of its columns that a table can
/// name.
proof fn column_is_kept(x: int, width: u32)
    requires
        0 <= x < width,
    ensures
        stretched(x, width, width) == clamped(x, 0, last_column(width)),
{
    let w = width as real;
    let s = column_is_near(x, width, width);
    tolerance_is_small(width as nat, width as nat);
    rounded_is_near(s);
    curve_is_straight(x as real, w);
    let d: int = s.rounded() - x;
    let e = d as real;
    assert(e == (s.rounded() as real) - (x as real));
    assert(-1real < e && e < 1real);
    assert(-1 < d < 1);
}

/// A picture that is made wider skips no column: from each column to the next,
/// what is shown moves on by one column at most.
pub proof fn stretched_skips_no_column(x: int, input_width: u32, out_width: u32)
    requires
        1 <= input_width <= out_width,
        0 <= x,
        x + 1 < out_width,
        told_apart(out_width, input_width),
    ensures
        stretched(x + 1, input_width, out_width) <= stretched(x, input_width, out_width) + 1,
{
    if input_width == out_width {
        column_is_kept(x, out_width);
        column_is_kept(x + 1, out_width);
    } else {
        let a = column_is_near(x, input_width, out_width);
        let b = column_is_near(x + 1, input_width, out_width);
        assert((x + 1) as real == x as real + 1real);
        tolerance_is_small(out_width as nat, input_width as nat);
        rise_is_below_one(x as real, out_width, input_width);
        rounded_is_near(a);
        rounded_is_near(b);
        neighbours_at_most(
            a.value(),
            b.value(),
            a.rounded(),
            b.rounded(),
            last_column(input_width),
        );
    }
}

/// Up to a column, every column of the input that comes before what it shows is
/// shown.
proof fn shown_up_to(c: int, x: int, input_width: u32, out_width: u32) -> (y: int)
    requires
        1 <= input_width <= out_width,
        0 <= x < out_width,
        told_apart(out_width, input_width),
        0 <= c <= stretched(x, input_width, out_width),
    ensures
        0 <= y <= x,
        stretched(y, input_width, out_width) == c,
    decreases x,
{
    if x == 0 {
        stretched_begins_with_the_picture(input_width, out_width);
        0
    } else if c <= stretched(x - 1, input_width, out_width) {
        shown_up_to(c, x - 1, input_width, out_width)
    } else {
        stretched_skips_no_column(x - 1, input_width, out_width);
        x
    }
}

/// A picture that is made wider loses nothing: every column of the input that a
/// table can name is shown.
pub proof fn stretched_shows_every_column(c: int, input_width: u32, out_width: u32)
    requires
        1 <= input_width <= out_width,
        told_apart(out_width, input_width),
        0 <= c <= last_column(input_width),
    ensures
        exists|x: int| 0 <= x < out_width && #[trigger] stretched(x, input_width, out_width) == c,
{
    stretched_ends_with_the_picture(input_width, out_width);
    let y = shown_up_to(c, out_width - 1, input_width, out_width);
    assert(stretched(y, input_width, out_width) == c);
}

/// What lies less than one column before the right edge of the output lies less
/// than one column before that of the input.
proof fn edge_stays_near(m: real, w: real, v: real)
    requires
        w - 1real < m <= w,
        w >= 2real,
        v <= w,
    ensures
        curve(m, w, v) > v - 1real,
{
    curve_mirrors(w - m, w, v);
    curve_stays_below(w - m, w, v);
}

/// The computed column of a squeezed picture, but for the last, lies at least one
/// column before the right edge.
proof fn room_for_one_more(s: int, input_width: u32, out_width: u32)
    requires
        0 <= s,
        s + 1 < out_width <= input_width,
    ensures
        squeezed_place(s, input_width, out_width).value() <= input_width as real - 1real,
{
    let w = input_width as real;
    let v = out_width as real;
    let m = squeezed_place(s, input_width, out_width).value();
    assert(m <= w) by {
        squeezed_place_is_inside(s, input_width, out_width);
    }
    squeezed_place_is_near(s, input_width, out_width);
    tolerance_is_small(input_width as nat, out_width as nat);
    assert(s as real <= v - 2real);
    if m > w - 1real {
        edge_stays_near(m, w, v);
    }
}

/// The computed columns of a squeezed picture are one column apart at least.
proof fn squeezed_places_are_apart(s: int, input_width: u32, out_width: u32)
    requires
        0 <= s,
        s + 1 < out_width < input_width,
        input_width <= 2 * out_width,
        told_apart(input_width, out_width),
    ensures
        squeezed_place(s, input_width, out_width).value() + 1real <= squeezed_place(
            s + 1,
            input_width,
            out_width,
        ).value(),
{
    let w = input_width as real;
    let v = out_width as real;
    let m = squeezed_place(s, input_width, out_width).value();
    let n = squeezed_place(s + 1, input_width, out_width).value();
    squeezed_place_is_inside(s, input_width, out_width);
    squeezed_place_is_inside(s + 1, input_width, out_width);
    squeezed_place_is_near(s, input_width, out_width);
    squeezed_place_is_near(s + 1, input_width, out_width);
    room_for_one_more(s, input_width, out_width);
    rise_is_below_one(m, input_width, out_width);
    assert((s + 1) as real == s as real + 1real);
    if n < m + 1real {
        curve_never_falls(n, m + 1real, w, v);
    }
}

/// Numbers that are one apart are rounded to different integers.
proof fn rounded_apart(a: Binary64, b: Binary64)
    requires
        a.is_finite(),
        b.is_finite(),
        0real <= a.value(),
        a.value() + 1real <= b.value(),
    ensures
        a.rounded() < b.rounded(),
{
    rounded_is_near(a);
    rounded_is_near(b);
}

/// A picture that is squeezed to its own width is left alone.
proof fn squeezed_to_own_width(s: int, width: u32)
    requires
        0 <= s < width,
    ensures
        squeezed_place(s, width, width).rounded() == s,
{
    let m = squeezed_place(s, width, width);
    squeezed_place_is_inside(s, width, width);
    squeezed_place_is_near(s, width, width);
    tolerance_is_small(width as nat, width as nat);
    curve_is_straight(m.value(), width as real);
    rounded_is_near(m);
}

/// A squeezed picture shows no column twice, if it is no less than half as wide.
pub proof fn squeezed_repeats_no_column(s: int, input_width: u32, out_width: u32)
    requires
        0 <= s,
        s + 1 < out_width <= input_width <= 65536,
        input_width <= 2 * out_width,
        told_apart(input_width, out_width),
    ensures
        squeezed(s, input_width, out_width) < squeezed(s + 1, input_width, out_width),
{
    let a = squeezed_place(s, input_width, out_width);
    let b = squeezed_place(s + 1, input_width, out_width);
    squeezed_place_is_inside(s, input_width, out_width);
    squeezed_place_is_inside(s + 1, input_width, out_width);
    assert(a.rounded() < b.rounded()) by {
        if input_width == out_width {
            squeezed_to_own_width(s, input_width);
            squeezed_to_own_width(s + 1, input_width);
        } else {
            squeezed_places_are_apart(s, input_width, out_width);
            rounded_apart(a, b);
        }
    }
    squeezed_place_is_before_edge(s, input_width, out_width);
    squeezed_place_is_before_edge(s + 1, input_width, out_width);
}

/// Each column of a stretched picture shows the nearest column of the input on
/// a parabola: at the share `g` of the width, the picture is drawn together by
/// `2 * (g - g * g)` of what it gains in width, counted from the nearer edge.
pub proof fn stretched_follows_a_parabola(x: int, input_width: u32, out_width: u32, g: real)
    requires
        input_width >= 1,
        0 <= x < out_width,
        g * (out_width as real) == x as real,
    ensures
        ({
            let gain = out_width as real - input_width as real;
            let exact = if 2 * x <= out_width {
                x as real - 2real * (gain * (g - g * g))
            } else {
                x as real - gain + 2real * (gain * (g - g * g))
            };
            let last = last_column(input_width) as real;
            let within = if exact < 0real {
                0real
            } else if exact > last {
                last
            } else {
                exact
            };
            2real * real_abs((stretched(x, input_width, out_width) as real) - within) <= 1real
                + 1real / 16384real
        }),
{
    let w = out_width as real;
    let v = input_width as real;
    let xr = x as real;
    let s = column_is_near(x, input_width, out_width);
    tolerance_is_small(out_width as nat, input_width as nat);
    rounded_is_near(s);
    let h = xr / w;
    quotient_times_divisor(xr, w);
    cancel(g, h, w);
    cancel(h, g, w);
    assert(g == h);
    if 2 * x <= out_width {
        curve_left(xr, w, v);
    } else {
        curve_right(xr, w, v);
    }
    let exact = curve(xr, w, v);
    let k = s.rounded() as real;
    assert(2real * real_abs(k - s.value()) <= 1real);
    assert(2real * real_abs(k - exact) <= 1real + 1real / 16384real);
    if s.rounded() < 0 {
        assert(k <= -1real);
    }
    if s.rounded() > last_column(input_width) {
        assert(k >= last_column(input_width) as real + 1real);
    }
}

/// A picture that keeps its width keeps each of its columns.
pub proof fn same_width_changes_nothing(x: int, width: u32)
    requires
        0 <= x < width <= 65536,
    ensures
        stretched(x, width, width) == x,
{
    column_is_kept(x, width);
}

} // verus!
