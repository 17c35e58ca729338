//! The width of an output in double precision.
//!
//! The width for a height is stated in integers. Computed in double precision,
//! with a rounded ratio and a rounded product, it comes out the same.

use vstd::prelude::*;

use crate::binary64::{clamped, of_nat, Binary64, LIMIT};
use crate::crop::{FOUR_THIRDS, SIXTEEN_NINTHS};
use crate::reals::{
    nearest_reaches, p2, p2_adds, p2_positive, p2_step, pack_parts, product_is_near,
    product_is_real, unit, unit_is_power, value_parts, whole_is_exact, whole_is_floor,
};
use crate::remap::target_width;

verus! {

/// The bits of the ratio of width to height.
pub open spec fn ratio(squeeze: bool) -> Binary64 {
    Binary64 {
        bits: if squeeze {
            FOUR_THIRDS
        } else {
            SIXTEEN_NINTHS
        },
    }
}

/// The width for a height, computed in double precision and cut to an even
/// number of 32 bits.
pub open spec fn computed_width(input_height: u32, squeeze: bool) -> int {
    clamped(of_nat(input_height as nat).times(ratio(squeeze)).whole(), 0, u32::MAX as int) / 2
        * 2
}

/// The value of a ratio: it falls short of the exact one by one part in 2 to the
/// power 54.
proof fn ratio_value(squeeze: bool) -> (r: real)
    ensures
        ratio(squeeze).is_finite(),
        !ratio(squeeze).negative(),
        ratio(squeeze).value() == r,
        squeeze ==> 3real * r == 4real - 4real / 18014398509481984real,
        !squeeze ==> 9real * r == 16real - 16real / 18014398509481984real,
{
    let b = ratio(squeeze);
    unit_is_power();
    p2_step(-53);
    if squeeze {
        assert(b.field() == 1023 && b.fraction() == 0x5_5555_5555_5555);
    } else {
        assert(b.field() == 1023 && b.fraction() == 0xc_71c7_1c71_c71c);
    }
    value_parts(b);
    let m = b.mant() as real;
    let z = p2(-52);
    assert(z == 1real / 4503599627370496real);
    if squeeze {
        assert(m == 6004799503160661real);
        assert(m * z == 6004799503160661real / 4503599627370496real) by (nonlinear_arith)
            requires
                m == 6004799503160661real,
                z == 1real / 4503599627370496real,
        ;
    } else {
        assert(m == 8006399337547548real);
        assert(m * z == 8006399337547548real / 4503599627370496real) by (nonlinear_arith)
            requires
                m == 8006399337547548real,
                z == 1real / 4503599627370496real,
        ;
    }
    b.value()
}

/// The product where the exact one is an integer.
proof fn exact_product(h: nat, squeeze: bool, r: real, whole: nat)
    requires
        1 <= h <= u32::MAX,
        1 <= whole < LIMIT,
        ratio(squeeze).is_finite(),
        !ratio(squeeze).negative(),
        ratio(squeeze).value() == r,
        h as real * r == whole as real - whole as real / 18014398509481984real,
    ensures
        of_nat(h).times(ratio(squeeze)).is_finite(),
        of_nat(h).times(ratio(squeeze)).value() == whole as real,
{
    let a = of_nat(h);
    let b = ratio(squeeze);
    whole_is_exact(h);
    value_parts(a);
    value_parts(b);
    let m1 = a.mant() as real;
    let m2 = b.mant() as real;
    let z1 = p2(a.exp());
    let z2 = p2(b.exp());
    let n = a.mant() * b.mant();
    product_is_real(a.mant() as int, b.mant() as int);
    p2_adds(a.exp(), b.exp());
    p2_positive(a.exp());
    assert(a.value() >= 1real);
    assert(!a.negative()) by {
        if a.negative() {
            assert(m1 * z1 >= 0real) by (nonlinear_arith)
                requires
                    m1 >= 0real,
                    z1 > 0real,
            ;
        }
    }
    let v = h as real * r;
    assert((m1 * m2) * (z1 * z2) == (m1 * z1) * (m2 * z2)) by (nonlinear_arith);
    assert(v > 0real);
    assert(n >= 1) by {
        if n == 0 {
            let z = z1 * z2;
            assert(0real * z == 0real) by (nonlinear_arith);
        }
    }
    nearest_reaches(n, a.exp() + b.exp(), v, whole);
}

/// The integral part of the product is that of the exact product.
proof fn product_floor(h: nat, squeeze: bool, num: int, den: int, r: real)
    requires
        h <= u32::MAX,
        ratio(squeeze).is_finite(),
        !ratio(squeeze).negative(),
        ratio(squeeze).value() == r,
        (num == 16 && den == 9) || (num == 4 && den == 3),
        (den as real) * r == (num as real) - (num as real) / 18014398509481984real,
    ensures
        of_nat(h).times(ratio(squeeze)).is_finite(),
        of_nat(h).times(ratio(squeeze)).value() >= 0real,
        of_nat(h).times(ratio(squeeze)).whole_magnitude() == h * num / den,
{
    let p = of_nat(h).times(ratio(squeeze));
    let whole = (h * num / den) as nat;
    let rest = h * num - den * whole;
    let hr = h as real;
    let wr = whole as real;
    whole_is_exact(h);
    unit_is_power();
    assert(0 <= rest < den);
    let c = 18014398509481984real;
    let exact = hr * r;
    // den * exact is num * h, less one part in 2 to the power 54.
    let top = (h * num) as real;
    product_is_real(h as int, num);
    assert((den as real) * exact == top - top / c) by (nonlinear_arith)
        requires
            exact == hr * r,
            (den as real) * r == (num as real) - (num as real) / c,
            top == hr * (num as real),
            c == 18014398509481984real,
    ;
    let times = (den as real) * exact;
    if den == 9 {
        assert(times == 9real * exact) by (nonlinear_arith)
            requires
                times == (den as real) * exact,
                den == 9,
        ;
    } else {
        assert(times == 3real * exact) by (nonlinear_arith)
            requires
                times == (den as real) * exact,
                den == 3,
        ;
    }
    assert(0real <= exact <= 8589934592real);
    product_is_near(of_nat(h), ratio(squeeze));
    let u = unit();
    assert(exact * u <= 1real / 1048576real) by (nonlinear_arith)
        requires
            exact <= 8589934592real,
            u == 1real / 9007199254740992real,
    ;
    if h == 0 {
        assert(hr * r == 0real) by (nonlinear_arith)
            requires
                hr == 0real,
        ;
        assert(0real * u == 0real) by (nonlinear_arith);
        zero_times(ratio(squeeze));
        whole_is_floor(p);
    } else if rest == 0 {
        assert(exact == wr - wr / c);
        exact_product(h, squeeze, r, whole);
        whole_is_floor(p);
    } else {
        assert(exact * u >= 0real) by (nonlinear_arith)
            requires
                exact >= 0real,
                u > 0real,
        ;
        whole_is_floor(p);
    }
}

/// Zero times a number that is not negative is zero.
proof fn zero_times(b: Binary64)
    requires
        b.is_finite(),
        !b.negative(),
    ensures
        of_nat(0).times(b).value() == 0real,
{
    pack_parts(false, 0, -1074);
    let a = of_nat(0);
    assert(a.mant() == 0);
    assert(a.mant() * b.mant() == 0) by (nonlinear_arith)
        requires
            a.mant() == 0,
    ;
    let p = p2(-1074);
    assert(0real * p == 0real) by (nonlinear_arith);
}

/// The width that is computed in double precision is the width.
pub proof fn computed_width_is_exact(input_height: u32, squeeze: bool)
    ensures
        computed_width(input_height, squeeze) == target_width(input_height, squeeze),
{
    let r = ratio_value(squeeze);
    let p = of_nat(input_height as nat).times(ratio(squeeze));
    if squeeze {
        product_floor(input_height as nat, squeeze, 4, 3, r);
    } else {
        product_floor(input_height as nat, squeeze, 16, 9, r);
    }
    assert(!p.is_nan() && !p.is_infinite());
    if p.negative() {
        value_parts(p);
        p2_positive(p.exp());
        let m = p.mant() as real;
        let z = p2(p.exp());
        assert(m * z >= 0real) by (nonlinear_arith)
            requires
                m >= 0real,
                z > 0real,
        ;
        whole_is_floor(p);
    }
}

/// A picture in 4:3 that is stretched and then squeezed has the size that it had:
/// stretching keeps the height, and the width goes by the height.
pub proof fn size_comes_back(width: u32, height: u32)
    requires
        3 * width == 4 * height,
        width % 2 == 0,
    ensures
        target_width(height, true) == width,
{
    assert(height as int * 4 / 3 == width);
}

} // verus!
