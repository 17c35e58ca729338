//! Laws of times and shapes: which seconds are searched for black bars, and
//! which pictures are far from the shape that they should have.
//!
//! Times and shapes are compared in double precision. The laws say what that
//! comes to in exact numbers.

use vstd::prelude::*;
use vstd::string::*;

use crate::binary64::{of_nat, Binary64};
use crate::crop::{
    crop_length, crop_start, input_warning, is_off, region_warning, CropRect, CROP_TOLERANCE,
    FOUR_THIRDS, INPUT_TOLERANCE, SIXTEEN_NINTHS, SIXTY, TWENTY,
};
use crate::reals::{
    below_is_less, constants_are_exact, difference_is_near, is_exactly, near_within, negated_value,
    p2, p2_positive, p2_step, quotient_is_near, real_abs, unit_is_power, value_parts,
    whole_is_exact,
};

verus! {

// ---------------------------------------------------------------------------
// Times
// ---------------------------------------------------------------------------

/// 2 to the powers that the constants are multiples of.
proof fn small_powers()
    ensures
        p2(-47) == 1real / 140737488355328real,
        p2(-48) == 1real / 281474976710656real,
        p2(-52) == 1real / 4503599627370496real,
        p2(-56) == 1real / 72057594037927936real,
        p2(-57) == 1real / 144115188075855872real,
{
    unit_is_power();
    p2_step(-57);
    p2_step(-56);
    p2_step(-55);
    p2_step(-54);
    p2_step(-53);
    p2_step(-52);
    p2_step(-51);
    p2_step(-50);
    p2_step(-49);
    p2_step(-48);
}

proof fn seconds_are_exact()
    ensures
        is_exactly(SIXTY, 60real),
        is_exactly(TWENTY, 20real),
{
    small_powers();
    let sixty = Binary64 { bits: SIXTY };
    assert(sixty.field() == 1028 && sixty.fraction() == 0xe_0000_0000_0000);
    value_parts(sixty);
    let m = sixty.mant() as real;
    let z = p2(-47);
    assert(m * z == 60real) by (nonlinear_arith)
        requires
            m == 8444249301319680real,
            z == 1real / 140737488355328real,
    ;
    let twenty = Binary64 { bits: TWENTY };
    assert(twenty.field() == 1027 && twenty.fraction() == 0x4_0000_0000_0000);
    value_parts(twenty);
    let k = twenty.mant() as real;
    let y = p2(-48);
    assert(k * y == 20real) by (nonlinear_arith)
        requires
            k == 5629499534213120real,
            y == 1real / 281474976710656real,
    ;
}

/// A video of more than a minute is searched from second 30 on, any other one
/// from its start. A video of more than 20 seconds is searched for 10, and so is
/// one whose duration is not known; any other one is searched whole.
pub proof fn search_goes_by_the_duration(duration: Binary64, text: Seq<char>)
    requires
        duration.is_finite(),
    ensures
        duration.value() > 60real ==> crop_start(duration) == "30"@,
        duration.value() <= 60real ==> crop_start(duration) == "0"@,
        duration.value() > 20real ==> crop_length(duration, text) == "10"@,
        0real < duration.value() <= 20real ==> crop_length(duration, text) == text,
        duration.value() <= 0real ==> crop_length(duration, text) == "10"@,
{
    seconds_are_exact();
    constants_are_exact();
    assert(is_exactly(0, 0real));
    below_is_less(Binary64 { bits: SIXTY }, duration);
    below_is_less(Binary64 { bits: TWENTY }, duration);
    below_is_less(Binary64 { bits: 0 }, duration);
}

// ---------------------------------------------------------------------------
// Shapes
// ---------------------------------------------------------------------------

/// The values of the constants that shapes are compared with.
proof fn shapes_are_close()
    ensures
        (Binary64 { bits: FOUR_THIRDS }).is_finite(),
        (Binary64 { bits: SIXTEEN_NINTHS }).is_finite(),
        (Binary64 { bits: CROP_TOLERANCE }).is_finite(),
        (Binary64 { bits: INPUT_TOLERANCE }).is_finite(),
        real_abs(3real * (Binary64 { bits: FOUR_THIRDS }).value() - 4real) < 1real / 1000000real,
        real_abs(9real * (Binary64 { bits: SIXTEEN_NINTHS }).value() - 16real)
            < 1real / 1000000real,
        real_abs(10real * (Binary64 { bits: CROP_TOLERANCE }).value() - 1real)
            < 1real / 1000000real,
        real_abs(20real * (Binary64 { bits: INPUT_TOLERANCE }).value() - 1real)
            < 1real / 1000000real,
{
    small_powers();
    let a = Binary64 { bits: FOUR_THIRDS };
    assert(a.field() == 1023 && a.fraction() == 0x5_5555_5555_5555);
    value_parts(a);
    let am = a.mant() as real;
    let az = p2(-52);
    assert(am * az == 6004799503160661real / 4503599627370496real) by (nonlinear_arith)
        requires
            am == 6004799503160661real,
            az == 1real / 4503599627370496real,
    ;
    let b = Binary64 { bits: SIXTEEN_NINTHS };
    assert(b.field() == 1023 && b.fraction() == 0xc_71c7_1c71_c71c);
    value_parts(b);
    let bm = b.mant() as real;
    assert(bm * az == 8006399337547548real / 4503599627370496real) by (nonlinear_arith)
        requires
            bm == 8006399337547548real,
            az == 1real / 4503599627370496real,
    ;
    let c = Binary64 { bits: CROP_TOLERANCE };
    assert(c.field() == 1019 && c.fraction() == 0x9_9999_9999_999a);
    value_parts(c);
    let cm = c.mant() as real;
    let cz = p2(-56);
    assert(cm * cz == 7205759403792794real / 72057594037927936real) by (nonlinear_arith)
        requires
            cm == 7205759403792794real,
            cz == 1real / 72057594037927936real,
    ;
    let d = Binary64 { bits: INPUT_TOLERANCE };
    assert(d.field() == 1018 && d.fraction() == 0x9_9999_9999_999a);
    value_parts(d);
    let dm = d.mant() as real;
    let dz = p2(-57);
    assert(dm * dz == 7205759403792794real / 144115188075855872real) by (nonlinear_arith)
        requires
            dm == 7205759403792794real,
            dz == 1real / 144115188075855872real,
    ;
}

/// The magnitude of a finite number.
proof fn magnitude_value(a: Binary64)
    requires
        a.is_finite(),
    ensures
        a.spec_magnitude().is_finite(),
        a.spec_magnitude().value() == real_abs(a.value()),
{
    negated_value(a);
    value_parts(a);
    p2_positive(a.exp());
    let m = a.mant() as real;
    let z = p2(a.exp());
    assert(m * z >= 0real) by (nonlinear_arith)
        requires
            m >= 0real,
            z > 0real,
    ;
}

/// Two roundings move a shape by less than one part in a hundred thousand.
proof fn shape_is_off(w: nat, h: nat, exact: real, expected: Binary64, tolerance: Binary64)
    requires
        w <= u32::MAX,
        1 <= h <= u32::MAX,
        exact * (h as real) == w as real,
        expected.is_finite(),
        tolerance.is_finite(),
        0real <= expected.value() <= 2real,
    ensures
        real_abs(exact - expected.value()) > tolerance.value() + 1real / 100000real ==> is_off(
            of_nat(w).over(of_nat(h)),
            expected,
            tolerance,
        ),
        real_abs(exact - expected.value()) < tolerance.value() - 1real / 100000real ==> !is_off(
            of_nat(w).over(of_nat(h)),
            expected,
            tolerance,
        ),
{
    unit_is_power();
    whole_is_exact(w);
    whole_is_exact(h);
    let hr = h as real;
    let wr = w as real;
    assert(0real <= exact <= 4294967296real) by (nonlinear_arith)
        requires
            exact * hr == wr,
            0real <= wr <= 4294967296real,
            hr >= 1real,
    ;
    let aspect = of_nat(w).over(of_nat(h));
    quotient_is_near(of_nat(w), of_nat(h), exact);
    near_within(aspect, exact, 4294967296real);
    let d = aspect.minus(expected);
    difference_is_near(aspect, expected);
    near_within(d, aspect.value() - expected.value(), 8589934592real);
    magnitude_value(d);
    below_is_less(tolerance, d.spec_magnitude());
}

/// A picture with sides in the ratio `exact`.
proof fn shape_of(w: nat, h: nat) -> (exact: real)
    requires
        h >= 1,
    ensures
        exact * (h as real) == w as real,
{
    let hr = h as real;
    let wr = w as real;
    let exact = wr / hr;
    assert(exact * hr == wr) by (nonlinear_arith)
        requires
            exact == wr / hr,
            hr >= 1real,
    ;
    exact
}

/// How far a ratio of sides is from `n` to `d`, over whole numbers.
proof fn distance_in_whole_numbers(w: nat, h: nat, exact: real, n: int, d: int, k: int)
    requires
        exact * (h as real) == w as real,
        h >= 1,
        d >= 1,
    ensures
        1000 * (d * w - n * h) > k * h <==> 1000real * ((d as real) * exact - (n as real))
            > k as real,
        1000 * (d * w - n * h) < k * h <==> 1000real * ((d as real) * exact - (n as real))
            < k as real,
        1000 * (n * h - d * w) > k * h <==> 1000real * ((n as real) - (d as real) * exact)
            > k as real,
        1000 * (n * h - d * w) < k * h <==> 1000real * ((n as real) - (d as real) * exact)
            < k as real,
{
    let hr = h as real;
    let wr = w as real;
    let nr = n as real;
    let dr = d as real;
    let kr = k as real;
    crate::reals::product_is_real(d, w as int);
    crate::reals::product_is_real(n, h as int);
    crate::reals::product_is_real(k, h as int);
    let x = dr * exact;
    assert(x * hr == dr * wr) by (nonlinear_arith)
        requires
            exact * hr == wr,
            x == dr * exact,
    ;
    let p = 1000real * (x - nr);
    assert(p * hr == 1000real * (dr * wr - nr * hr)) by (nonlinear_arith)
        requires
            p == 1000real * (x - nr),
            x * hr == dr * wr,
    ;
    assert((p > kr) == (p * hr > kr * hr) && (p < kr) == (p * hr < kr * hr)) by (nonlinear_arith)
        requires
            hr >= 1real,
    ;
    let q = 1000real * (nr - x);
    assert(q * hr == 1000real * (nr * hr - dr * wr)) by (nonlinear_arith)
        requires
            q == 1000real * (nr - x),
            x * hr == dr * wr,
    ;
    assert((q > kr) == (q * hr > kr * hr) && (q < kr) == (q * hr < kr * hr)) by (nonlinear_arith)
        requires
            hr >= 1real,
    ;
}

/// An input that is farther than 0.05 from 4:3, or from 16:9 where it is to be
/// squeezed, is warned of, and a nearer one is not. A thousandth to either side
/// is left to rounding.
pub proof fn inputs_far_off_are_told(width: u32, height: u32)
    requires
        height >= 1,
    ensures
        1000 * (3 * width - 4 * height) > 153 * height ==> input_warning(width, height, false)
            is Some,
        1000 * (4 * height - 3 * width) > 153 * height ==> input_warning(width, height, false)
            is Some,
        1000 * (3 * width - 4 * height) < 147 * height && 1000 * (4 * height - 3 * width) < 147
            * height ==> input_warning(width, height, false) is None,
        1000 * (9 * width - 16 * height) > 459 * height ==> input_warning(width, height, true)
            is Some,
        1000 * (16 * height - 9 * width) > 459 * height ==> input_warning(width, height, true)
            is Some,
        1000 * (9 * width - 16 * height) < 441 * height && 1000 * (16 * height - 9 * width) < 441
            * height ==> input_warning(width, height, true) is None,
{
    let w = width as nat;
    let h = height as nat;
    let exact = shape_of(w, h);
    shapes_are_close();
    let tolerance = Binary64 { bits: INPUT_TOLERANCE };
    shape_is_off(w, h, exact, Binary64 { bits: FOUR_THIRDS }, tolerance);
    shape_is_off(w, h, exact, Binary64 { bits: SIXTEEN_NINTHS }, tolerance);
    distance_in_whole_numbers(w, h, exact, 4, 3, 153);
    distance_in_whole_numbers(w, h, exact, 4, 3, 147);
    distance_in_whole_numbers(w, h, exact, 16, 9, 459);
    distance_in_whole_numbers(w, h, exact, 16, 9, 441);
}

/// A rectangle that is farther than 0.1 from 4:3 is warned of, and a nearer one
/// is not. Three thousandths to either side are left to rounding.
pub proof fn regions_far_off_are_told(c: CropRect)
    requires
        c.h >= 1,
    ensures
        1000 * (3 * c.w - 4 * c.h) > 303 * c.h ==> region_warning(c) is Some,
        1000 * (4 * c.h - 3 * c.w) > 303 * c.h ==> region_warning(c) is Some,
        1000 * (3 * c.w - 4 * c.h) < 297 * c.h && 1000 * (4 * c.h - 3 * c.w) < 297 * c.h
            ==> region_warning(c) is None,
{
    let w = c.w as nat;
    let h = c.h as nat;
    let exact = shape_of(w, h);
    shapes_are_close();
    shape_is_off(
        w,
        h,
        exact,
        Binary64 { bits: FOUR_THIRDS },
        Binary64 { bits: CROP_TOLERANCE },
    );
    distance_in_whole_numbers(w, h, exact, 4, 3, 303);
    distance_in_whole_numbers(w, h, exact, 4, 3, 297);
}

} // verus!
