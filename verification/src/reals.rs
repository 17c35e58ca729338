//! The real numbers that double-precision numbers stand for, and how far the
//! result of an operation is from the exact one.

use vstd::arithmetic::div_mod::*;
use vstd::arithmetic::mul::*;
use vstd::arithmetic::power2::*;
use vstd::prelude::*;

use crate::binary64::{
    abs, aligned, common, fits, fits_above, half_even, is_ulp, limits_are_powers, nearest,
    negated_parts, of_nat, pack, scaled, ulp, ulp_is, Binary64, LIMIT, NORMAL, SIGN,
};

verus! {

/// 2 to the power `e`.
pub open spec fn p2(e: int) -> real
    decreases abs(e),
{
    if e == 0 {
        1real
    } else if e > 0 {
        2real * p2(e - 1)
    } else {
        p2(e + 1) / 2real
    }
}

/// 2 to the power -53: the greatest relative error of a rounding.
pub open spec fn unit() -> real {
    1real / 9007199254740992real
}

pub proof fn p2_step(e: int)
    ensures
        p2(e + 1) == 2real * p2(e),
{
    if e < 0 {
        assert(p2(e) == p2(e + 1) / 2real);
    }
}

pub proof fn p2_positive(e: int)
    ensures
        p2(e) > 0real,
    decreases abs(e),
{
    if e > 0 {
        p2_positive(e - 1);
    } else if e < 0 {
        p2_positive(e + 1);
    }
}

/// Exponents add.
pub proof fn p2_adds(a: int, b: int)
    ensures
        p2(a + b) == p2(a) * p2(b),
    decreases abs(b),
{
    if b == 0 {
        assert(p2(a) * 1real == p2(a)) by (nonlinear_arith);
    } else if b > 0 {
        p2_adds(a, b - 1);
        p2_step(a + b - 1);
        p2_step(b - 1);
        let x = p2(a);
        let y = p2(b - 1);
        assert(2real * (x * y) == x * (2real * y)) by (nonlinear_arith);
    } else {
        p2_adds(a, b + 1);
        p2_step(a + b);
        p2_step(b);
        let x = p2(a);
        let y = p2(b);
        let z = p2(a + b);
        assert(z == x * y) by (nonlinear_arith)
            requires
                2real * z == x * (2real * y),
        ;
    }
}

/// On natural exponents this is the power of integers.
pub proof fn p2_is_pow2(n: nat)
    ensures
        p2(n as int) == pow2(n) as real,
    decreases n,
{
    if n == 0 {
        lemma2_to64();
    } else {
        p2_is_pow2((n - 1) as nat);
        lemma_pow2_unfold(n);
        p2_step(n - 1);
    }
}

/// The power grows with its exponent.
pub proof fn p2_grows(a: int, b: int)
    requires
        a <= b,
    ensures
        p2(a) <= p2(b),
    decreases b - a,
{
    p2_positive(a);
    if a < b {
        p2_grows(a, b - 1);
        p2_step(b - 1);
        p2_positive(b - 1);
    }
}

/// A product of integers is the product of the real numbers that they are.
pub proof fn product_is_real(a: int, b: int)
    ensures
        (a * b) as real == (a as real) * (b as real),
{
    assert((a * b) as real == (a as real) * (b as real)) by (nonlinear_arith);
}

// ---------------------------------------------------------------------------
// Values
// ---------------------------------------------------------------------------

impl Binary64 {
    /// The real number that a finite number stands for.
    pub open spec fn value(self) -> real {
        (self.signed_mant() as real) * p2(self.exp())
    }
}

pub open spec fn real_abs(r: real) -> real {
    if r < 0real {
        -r
    } else {
        r
    }
}

/// What a packed number is made of.
pub proof fn pack_parts(negative: bool, m: nat, t: int)
    requires
        m < LIMIT,
        m >= NORMAL ==> -1074 <= t <= 971,
    ensures
        pack(negative, m, t).is_finite(),
        pack(negative, m, t).negative() == negative,
        pack(negative, m, t).mant() == m,
        pack(negative, m, t).exp() == if m < NORMAL {
            -1074
        } else {
            t
        },
{
    let b = pack(negative, m, t).bits as int;
    let n = NORMAL as int;
    assert(SIGN == 2048 * NORMAL);
    let s: int = if negative {
        2048
    } else {
        0
    };
    let f: int = if m < NORMAL {
        0
    } else {
        t + 1075
    };
    let r: int = if m < NORMAL {
        m as int
    } else {
        m - NORMAL
    };
    assert(0 <= f <= 2046 && 0 <= r < n);
    assert(b == (s + f) * n + r) by {
        assert((s + f) * n == s * n + f * n) by (nonlinear_arith);
    }
    lemma_fundamental_div_mod_converse(b, n, s + f, r);
    assert((s + f) % 2048 == f);
}

/// Dividing both sides by a positive number.
pub proof fn cancel(a: real, b: real, c: real)
    requires
        c > 0real,
        a * c <= b * c,
    ensures
        a <= b,
{
    assert(a <= b) by (nonlinear_arith)
        requires
            c > 0real,
            a * c <= b * c,
    ;
}

/// `scaled(n, e, t)` and `scaled(d, t, e)` are the two parts of `n / d` times 2
/// to the power `e - t`.
proof fn scaled_ratio(n: nat, d: nat, e: int, t: int, v: real)
    requires
        d >= 1,
        v * (d as real) == (n as real) * p2(e),
    ensures
        scaled(d, t, e) >= 1,
        (scaled(n, e, t) as real) * p2(t) == v * (scaled(d, t, e) as real),
{
    let a = scaled(n, e, t);
    let b = scaled(d, t, e);
    if e > t {
        let k = (e - t) as nat;
        p2_is_pow2(k);
        p2_adds(t, e - t);
        product_is_real(n as int, pow2(k) as int);
        let x = n as real;
        let y = p2(e - t);
        let z = p2(t);
        assert((x * y) * z == x * (z * y)) by (nonlinear_arith);
    } else if e < t {
        let k = (t - e) as nat;
        lemma_pow2_pos(k);
        assert(d * pow2(k) >= 1) by (nonlinear_arith)
            requires
                d >= 1,
                pow2(k) >= 1,
        ;
        p2_is_pow2(k);
        p2_adds(e, t - e);
        product_is_real(d as int, pow2(k) as int);
        let x = n as real;
        let y = p2(t - e);
        let z = p2(e);
        let dd = d as real;
        assert(x * (z * y) == v * (dd * y)) by (nonlinear_arith)
            requires
                v * dd == x * z,
        ;
    }
}

/// How far a half-even quotient is from the quotient.
pub proof fn half_even_is_near(n: nat, d: nat)
    requires
        d >= 1,
    ensures
        -(d as int) <= 2 * (half_even(n, d) * d - n) <= d,
{
    let q = n / d;
    let r = n % d;
    lemma_fundamental_div_mod(n as int, d as int);
    assert(q * d == d * q) by (nonlinear_arith);
    assert((q + 1) * d == q * d + d) by (nonlinear_arith);
}

proof fn ulp_from(n: nat, d: nat, e: int, top: int) -> (t: int)
    requires
        fits(n, d, e, top),
        top >= -1074,
    ensures
        is_ulp(n, d, e, t),
        t <= top,
    decreases top + 1074,
{
    if top == -1074 || !fits(n, d, e, top - 1) {
        top
    } else {
        ulp_from(n, d, e, top - 1)
    }
}

/// There is an exponent of the last place.
pub proof fn ulp_exists(n: nat, d: nat, e: int) -> (t: int)
    requires
        d >= 1,
    ensures
        is_ulp(n, d, e, t),
        ulp(n, d, e) == t,
{
    let k: int = if e < -1074 {
        -1074 - e + n
    } else {
        n as int
    };
    let top = e + k;
    assert(fits(n, d, e, top)) by {
        pow2_grows(n, k as nat);
        pow2_is_above(n);
        lemma_pow2_pos(k as nat);
        let p = pow2(k as nat);
        if k > 0 {
            assert(n < (d * p) * LIMIT) by (nonlinear_arith)
                requires
                    d >= 1,
                    p > n,
                    LIMIT >= 1,
            ;
        } else {
            assert(n < d * LIMIT) by (nonlinear_arith)
                requires
                    d >= 1,
                    n == 0,
                    LIMIT >= 1,
            ;
        }
    }
    let t = ulp_from(n, d, e, top);
    ulp_is(n, d, e, t);
    t
}

proof fn pow2_is_above(n: nat)
    ensures
        pow2(n) > n,
    decreases n,
{
    if n == 0 {
        lemma2_to64();
    } else {
        pow2_is_above((n - 1) as nat);
        lemma_pow2_unfold(n);
    }
}

proof fn pow2_grows(a: nat, b: nat)
    requires
        a <= b,
    ensures
        pow2(a) <= pow2(b),
{
    if a < b {
        lemma_pow2_strictly_increases(a, b);
    }
}

/// The real quotient, where the integer parts differ by no more than half the
/// divisor.
proof fn near_quotient(m: real, a: real, b: real, z: real, v: real)
    requires
        b > 0real,
        z > 0real,
        a * z == v * b,
        -b <= 2real * (m * b - a) <= b,
    ensures
        real_abs(m * z - v) <= z / 2real,
{
    let x = m * z - v;
    assert(x * b == z * (m * b - a)) by (nonlinear_arith)
        requires
            a * z == v * b,
            x == m * z - v,
    ;
    let y = m * b - a;
    assert(z * y <= (z / 2real) * b) by (nonlinear_arith)
        requires
            z > 0real,
            2real * y <= b,
    ;
    assert((-(z / 2real)) * b <= z * y) by (nonlinear_arith)
        requires
            z > 0real,
            -b <= 2real * y,
    ;
    cancel(x, z / 2real, b);
    cancel(-(z / 2real), x, b);
}

/// A number that does not fit at an exponent is at least this great.
proof fn too_great(n: nat, d: nat, e: int, t: int, v: real)
    requires
        d >= 1,
        v * (d as real) == (n as real) * p2(e),
        !fits(n, d, e, t),
    ensures
        v >= 9007199254740992real * p2(t),
{
    scaled_ratio(n, d, e, t, v);
    let a = scaled(n, e, t);
    let b = scaled(d, t, e);
    product_is_real(b as int, LIMIT as int);
    let z = p2(t);
    p2_positive(t);
    let ar = a as real;
    let br = b as real;
    let l = LIMIT as real;
    assert(l == 9007199254740992real);
    assert(ar >= br * l);
    assert((l * z) * br <= v * br) by (nonlinear_arith)
        requires
            ar >= br * l,
            z > 0real,
            ar * z == v * br,
    ;
    cancel(l * z, v, br);
}

/// How far the nearest number is from the number itself.
pub proof fn nearest_is_near(negative: bool, n: nat, d: nat, e: int, v: real)
    requires
        n >= 1,
        d >= 1,
        v * (d as real) == (n as real) * p2(e),
        v <= p2(900),
    ensures
        nearest(negative, n, d, e).is_finite(),
        nearest(negative, n, d, e).negative() == negative,
        real_abs(
            (nearest(negative, n, d, e).mant() as real) * p2(nearest(negative, n, d, e).exp())
                - v,
        ) <= v * unit() + p2(-1075),
{
    let t = ulp_exists(n, d, e);
    let a = scaled(n, e, t);
    let b = scaled(d, t, e);
    let m = half_even(a, b);
    let z = p2(t);
    p2_positive(t);
    p2_positive(-1075);
    p2_positive(e);
    scaled_ratio(n, d, e, t, v);
    half_even_is_near(a, b);
    product_is_real(m as int, b as int);
    near_quotient(m as real, a as real, b as real, z, v);
    assert(v > 0real) by {
        let nr = n as real;
        let dr = d as real;
        let pe = p2(e);
        assert(v > 0real) by (nonlinear_arith)
            requires
                v * dr == nr * pe,
                nr >= 1real,
                dr >= 1real,
                pe > 0real,
        ;
    }
    let u = unit();
    assert(u * 9007199254740992real == 1real && u > 0real);
    assert(v * u >= 0real) by (nonlinear_arith)
        requires
            v > 0real,
            u > 0real,
    ;
    assert(m <= LIMIT) by {
        let q = a / b;
        lemma_fundamental_div_mod(a as int, b as int);
        assert(q < LIMIT) by (nonlinear_arith)
            requires
                a < b * LIMIT,
                a == b * q + a % b,
                a % b >= 0,
                b >= 1,
        ;
    }
    if t > -1074 {
        too_great(n, d, e, t - 1, v);
        p2_step(t - 1);
        let h = p2(t - 1);
        assert(v * u >= h) by (nonlinear_arith)
            requires
                v >= 9007199254740992real * h,
                u * 9007199254740992real == 1real,
                u > 0real,
        ;
        assert(t <= 900) by {
            if t > 900 {
                p2_grows(900, t - 1);
                p2_positive(t - 1);
            }
        }
        assert(m >= NORMAL) by {
            let ar = a as real;
            let br = b as real;
            let nm = NORMAL as real;
            assert(nm == 4503599627370496real);
            assert(nm * z <= v);
            assert((nm * br) * z <= ar * z) by (nonlinear_arith)
                requires
                    ar * z == v * br,
                    nm * z <= v,
                    br >= 1real,
            ;
            cancel(nm * br, ar, z);
            product_is_real(NORMAL as int, b as int);
            assert(NORMAL * b <= a);
            lemma_div_is_ordered(NORMAL * b, a as int, b as int);
            lemma_div_by_multiple(NORMAL as int, b as int);
        }
    }
    if m == LIMIT {
        pack_parts(negative, NORMAL as nat, t + 1);
        p2_step(t);
        assert((NORMAL as real) * (2real * z) == (m as real) * z) by (nonlinear_arith)
            requires
                (NORMAL as real) * 2real == (m as real),
        ;
    } else {
        pack_parts(negative, m, t);
    }
    p2_step(-1075);
}

/// The nearest number has the sign that is asked for.
pub proof fn nearest_has_sign(negative: bool, n: nat, d: nat, e: int)
    requires
        d >= 1,
    ensures
        nearest(negative, n, d, e).negative() == negative,
        n == 0 ==> nearest(negative, n, d, e).is_zero(),
{
    if n == 0 {
        pack_parts(negative, 0, -1074);
    } else {
        let t = ulp_exists(n, d, e);
        let a = scaled(n, e, t);
        let b = scaled(d, t, e);
        let m = half_even(a, b);
        let q = a / b;
        assert(b >= 1) by {
            if t > e {
                let k = (t - e) as nat;
                lemma_pow2_pos(k);
                assert(d * pow2(k) >= 1) by (nonlinear_arith)
                    requires
                        d >= 1,
                        pow2(k) >= 1,
                ;
            }
        }
        lemma_fundamental_div_mod(a as int, b as int);
        assert(q < LIMIT) by (nonlinear_arith)
            requires
                a < b * LIMIT,
                a == b * q + a % b,
                a % b >= 0,
                b >= 1,
        ;
        assert(SIGN == 2048 * NORMAL);
        if m == LIMIT {
            if t + 1 <= 971 {
                pack_parts(negative, NORMAL as nat, t + 1);
            }
        } else if m < NORMAL || t <= 971 {
            pack_parts(negative, m, t);
        }
    }
}

// ---------------------------------------------------------------------------
// Operations
// ---------------------------------------------------------------------------

/// `r` is the exact result but for one rounding.
pub open spec fn near(r: Binary64, exact: real) -> bool {
    &&& r.is_finite()
    &&& real_abs(r.value() - exact) <= real_abs(exact) * unit() + p2(-1075)
}

/// A number, rounded with its sign.
proof fn signed_nearest_is_near(negative: bool, n: nat, d: nat, e: int, v: real)
    requires
        d >= 1,
        v * (d as real) == (n as real) * p2(e),
        v <= p2(900),
    ensures
        near(
            nearest(negative, n, d, e),
            if negative {
                -v
            } else {
                v
            },
        ),
{
    p2_positive(-1075);
    p2_positive(e);
    let b = nearest(negative, n, d, e);
    if n == 0 {
        pack_parts(negative, 0, -1074);
        let p = p2(-1074);
        assert(0real * p == 0real) by (nonlinear_arith);
        let dr = d as real;
        assert(v == 0real) by (nonlinear_arith)
            requires
                v * dr == 0real * p2(e),
                dr >= 1real,
        ;
        assert(0real * unit() == 0real) by (nonlinear_arith);
    } else {
        nearest_is_near(negative, n, d, e, v);
        let m = b.mant() as real;
        let p = p2(b.exp());
        assert((-m) * p == -(m * p)) by (nonlinear_arith);
        assert(v >= 0real) by {
            let nr = n as real;
            let dr = d as real;
            let pe = p2(e);
            assert(v >= 0real) by (nonlinear_arith)
                requires
                    v * dr == nr * pe,
                    nr >= 1real,
                    dr >= 1real,
                    pe > 0real,
            ;
        }
    }
}

/// The value of a finite number at a lower exponent.
proof fn aligned_value(a: Binary64, e: int)
    requires
        e <= a.exp(),
    ensures
        (aligned(a, e) as real) * p2(e) == a.value(),
{
    let k = (a.exp() - e) as nat;
    p2_is_pow2(k);
    p2_adds(e, a.exp() - e);
    product_is_real(a.signed_mant(), pow2(k) as int);
    let x = a.signed_mant() as real;
    let y = p2(a.exp() - e);
    let z = p2(e);
    assert((x * y) * z == x * (z * y)) by (nonlinear_arith);
}

/// The sum of two numbers is near the exact sum.
pub proof fn sum_is_near(a: Binary64, b: Binary64)
    requires
        a.is_finite(),
        b.is_finite(),
        real_abs(a.value() + b.value()) <= p2(900),
    ensures
        near(a.plus(b), a.value() + b.value()),
{
    let e = common(a, b);
    aligned_value(a, e);
    aligned_value(b, e);
    let x = aligned(a, e);
    let y = aligned(b, e);
    let sum = x + y;
    let z = p2(e);
    let exact = a.value() + b.value();
    assert((sum as real) * z == exact) by {
        let xr = x as real;
        let yr = y as real;
        assert((xr + yr) * z == xr * z + yr * z) by (nonlinear_arith);
    }
    p2_positive(e);
    p2_positive(-1075);
    if sum == 0 {
        pack_parts(a.negative() && b.negative(), 0, -1074);
        assert(0real * z == 0real) by (nonlinear_arith);
        let p = p2(-1074);
        assert(0real * p == 0real) by (nonlinear_arith);
        assert(0real * unit() == 0real) by (nonlinear_arith);
    } else {
        let n = abs(sum);
        let nr = n as real;
        let sr = sum as real;
        assert((-sr) * z == -(sr * z)) by (nonlinear_arith);
        let v = nr * z;
        assert(v == real_abs(exact)) by {
            assert(sr < 0real ==> sr * z < 0real) by (nonlinear_arith)
                requires
                    z > 0real,
            ;
            assert(sr > 0real ==> sr * z > 0real) by (nonlinear_arith)
                requires
                    z > 0real,
            ;
        }
        assert(v * 1real == v) by (nonlinear_arith);
        signed_nearest_is_near(sum < 0, n, 1, e, v);
        assert(sr < 0real ==> sr * z < 0real) by (nonlinear_arith)
            requires
                z > 0real,
        ;
    }
}

/// Changing the sign changes the sign of the value.
pub proof fn negated_value(a: Binary64)
    ensures
        a.spec_negated().value() == -a.value(),
        a.is_finite() ==> a.spec_negated().is_finite(),
{
    negated_parts(a);
    let m = a.signed_mant() as real;
    let p = p2(a.exp());
    assert((-m) * p == -(m * p)) by (nonlinear_arith);
}

/// The difference of two numbers is near the exact difference.
pub proof fn difference_is_near(a: Binary64, b: Binary64)
    requires
        a.is_finite(),
        b.is_finite(),
        real_abs(a.value() - b.value()) <= p2(900),
    ensures
        near(a.minus(b), a.value() - b.value()),
{
    negated_value(b);
    sum_is_near(a, b.spec_negated());
}

/// The value is the magnitude with the sign.
pub proof fn value_parts(a: Binary64)
    ensures
        a.value() == if a.negative() {
            -((a.mant() as real) * p2(a.exp()))
        } else {
            (a.mant() as real) * p2(a.exp())
        },
{
    let m = a.mant() as real;
    let p = p2(a.exp());
    assert((-m) * p == -(m * p)) by (nonlinear_arith);
}

/// The product of two numbers is near the exact product.
pub proof fn product_is_near(a: Binary64, b: Binary64)
    requires
        a.is_finite(),
        b.is_finite(),
        real_abs(a.value() * b.value()) <= p2(900),
    ensures
        near(a.times(b), a.value() * b.value()),
{
    let e = a.exp() + b.exp();
    let n = a.mant() * b.mant();
    let negative = a.negative() != b.negative();
    p2_adds(a.exp(), b.exp());
    product_is_real(a.mant() as int, b.mant() as int);
    let m1 = a.mant() as real;
    let m2 = b.mant() as real;
    let z1 = p2(a.exp());
    let z2 = p2(b.exp());
    p2_positive(a.exp());
    p2_positive(b.exp());
    let v = (n as real) * p2(e);
    assert((m1 * m2) * (z1 * z2) == (m1 * z1) * (m2 * z2)) by (nonlinear_arith);
    value_parts(a);
    value_parts(b);
    let x = m1 * z1;
    let y = m2 * z2;
    assert(x >= 0real && y >= 0real && x * y >= 0real) by (nonlinear_arith)
        requires
            x == m1 * z1,
            y == m2 * z2,
            m1 >= 0real,
            m2 >= 0real,
            z1 > 0real,
            z2 > 0real,
    ;
    assert((-x) * y == -(x * y) && x * (-y) == -(x * y) && (-x) * (-y) == x * y)
        by (nonlinear_arith);
    assert(v * 1real == v) by (nonlinear_arith);
    signed_nearest_is_near(negative, n, 1, e, v);
}

/// The quotient of two numbers is near the exact quotient.
pub proof fn quotient_is_near(a: Binary64, b: Binary64, exact: real)
    requires
        a.is_finite(),
        b.is_finite(),
        b.value() != 0real,
        exact * b.value() == a.value(),
        real_abs(exact) <= p2(900),
    ensures
        near(a.over(b), exact),
{
    let e = a.exp() - b.exp();
    let n = a.mant();
    let d = b.mant();
    let negative = a.negative() != b.negative();
    p2_adds(e, b.exp());
    let m1 = n as real;
    let m2 = d as real;
    let z0 = p2(e);
    let z1 = p2(a.exp());
    let z2 = p2(b.exp());
    p2_positive(a.exp());
    p2_positive(b.exp());
    p2_positive(e);
    value_parts(a);
    value_parts(b);
    assert(0real * z2 == 0real) by (nonlinear_arith);
    assert(d >= 1);
    let x = m1 * z1;
    let y = m2 * z2;
    let v: real = if negative {
        -exact
    } else {
        exact
    };
    assert(v * y == x) by {
        assert((-exact) * y == -(exact * y) && exact * (-y) == -(exact * y) && (-exact) * (-y)
            == exact * y) by (nonlinear_arith);
    }
    assert(v * m2 == m1 * z0) by {
        assert((v * m2) * z2 == (m1 * z0) * z2) by (nonlinear_arith)
            requires
                v * y == x,
                y == m2 * z2,
                x == m1 * z1,
                z1 == z0 * z2,
        ;
        cancel(v * m2, m1 * z0, z2);
        cancel(m1 * z0, v * m2, z2);
    }
    assert(v <= p2(900));
    signed_nearest_is_near(negative, n, d, e, v);
}

/// 2 to the power -53, and a bound on 2 to the power 900.
pub proof fn unit_is_power()
    ensures
        p2(-53) == unit(),
        p2(-1075) <= unit(),
        p2(900) >= 1152921504606846976real,
{
    limits_are_powers();
    p2_is_pow2(53);
    p2_adds(-53, 53);
    p2_grows(-1075, -53);
    let x = p2(-53);
    assert(x == 1real / 9007199254740992real) by (nonlinear_arith)
        requires
            x * 9007199254740992real == 1real,
    ;
    lemma2_to64_rest();
    p2_is_pow2(60);
    p2_grows(60, 900);
}

/// The error of one rounding of a number that is no greater than `bound`.
pub proof fn near_within(r: Binary64, exact: real, bound: real)
    requires
        near(r, exact),
        real_abs(exact) <= bound,
        bound >= 1real,
    ensures
        real_abs(r.value() - exact) <= bound * (2real * unit()),
{
    unit_is_power();
    let a = real_abs(exact);
    let u = unit();
    assert(a * u <= bound * u) by (nonlinear_arith)
        requires
            a <= bound,
            u > 0real,
    ;
    assert(u <= bound * u) by (nonlinear_arith)
        requires
            bound >= 1real,
            u > 0real,
    ;
    assert(bound * (2real * u) == bound * u + bound * u) by (nonlinear_arith);
}

/// Finite numbers are ordered by their values.
pub proof fn below_is_less(a: Binary64, b: Binary64)
    requires
        a.is_finite(),
        b.is_finite(),
    ensures
        a.below(b) <==> a.value() < b.value(),
{
    let e = common(a, b);
    aligned_value(a, e);
    aligned_value(b, e);
    p2_positive(e);
    let z = p2(e);
    let x = aligned(a, e) as real;
    let y = aligned(b, e) as real;
    assert((x < y) == (x * z < y * z)) by (nonlinear_arith)
        requires
            z > 0real,
    ;
}

/// A whole number below 2 to the power 53 is exact.
pub proof fn whole_is_exact(n: nat)
    requires
        n < LIMIT,
    ensures
        of_nat(n).is_finite(),
        of_nat(n).value() == n as real,
{
    if n == 0 {
        pack_parts(false, 0, -1074);
        let p = p2(-1074);
        assert(0real * p == 0real) by (nonlinear_arith);
    } else {
        let t = ulp_exists(n, 1, 0);
        if t > 0 {
            assert(fits(n, 1, 0, 0));
            fits_above(n, 1, 0, 0, t - 1);
        }
        lemma2_to64();
        let a = scaled(n, 0, t);
        let b = scaled(1, t, 0);
        assert(b == 1);
        assert(half_even(a, b) == a) by {
            lemma_div_basics(a as int);
            lemma_fundamental_div_mod(a as int, 1);
        }
        assert(a < LIMIT);
        assert(n as real * 1real == n as real) by (nonlinear_arith);
        scaled_ratio(n, 1, 0, t, n as real);
        assert((n as real) * (b as real) == n as real) by (nonlinear_arith)
            requires
                b == 1,
        ;
        assert(a < NORMAL ==> t == -1074) by {
            if t > -1074 && a < NORMAL {
                too_great(n, 1, 0, t - 1, n as real);
                p2_step(t - 1);
                p2_positive(t);
                let ar = a as real;
                let z = p2(t);
                let nm = 4503599627370496real;
                assert(ar * z >= nm * z);
                cancel(nm, ar, z);
            }
        }
        pack_parts(false, a, t);
    }
}

/// The integer nearest to a finite number lies within one half of it; of two
/// such integers it is the one farther from zero.
pub proof fn rounded_is_near(b: Binary64)
    requires
        b.is_finite(),
    ensures
        b.value() >= 0real ==> 2real * (b.rounded() as real) - 1real <= 2real * b.value()
            < 2real * (b.rounded() as real) + 1real,
        b.value() < 0real ==> 2real * (b.rounded() as real) - 1real < 2real * b.value()
            <= 2real * (b.rounded() as real) + 1real,
        b.value() >= 0real ==> b.rounded() >= 0,
        b.value() <= 0real ==> b.rounded() <= 0,
{
    value_parts(b);
    let m = b.mant();
    let k = b.rounded_magnitude();
    let mag = (m as real) * p2(b.exp());
    p2_positive(b.exp());
    let mr = m as real;
    let z = p2(b.exp());
    assert(mr * z >= 0real) by (nonlinear_arith)
        requires
            mr >= 0real,
            z > 0real,
    ;
    assert(2real * (k as real) - 1real <= 2real * mag < 2real * (k as real) + 1real) by {
        if b.exp() >= 0 {
            p2_is_pow2(b.exp() as nat);
            product_is_real(m as int, pow2(b.exp() as nat) as int);
        } else {
            let s = (-b.exp()) as nat;
            let d = pow2(s);
            lemma_pow2_pos(s);
            p2_is_pow2(s);
            p2_adds(b.exp(), -b.exp());
            lemma_fundamental_div_mod((2 * m + d) as int, (2 * d) as int);
            let r = (2 * m + d) % (2 * d);
            assert(0 <= r < 2 * d);
            assert(2 * m + d == (2 * d) * k + r);
            let dr = d as real;
            let kr = k as real;
            let rr = r as real;
            product_is_real((2 * d) as int, k as int);
            assert(2real * mr + dr == (2real * dr) * kr + rr);
            assert(z * dr == 1real);
            assert((2real * mr + dr) * z == ((2real * dr) * kr + rr) * z);
            assert(2real * (mr * z) + 1real == 2real * kr + rr * z) by (nonlinear_arith)
                requires
                    (2real * mr + dr) * z == ((2real * dr) * kr + rr) * z,
                    z * dr == 1real,
            ;
            assert(0real <= rr * z < 2real) by (nonlinear_arith)
                requires
                    0real <= rr,
                    rr < 2real * dr,
                    z > 0real,
                    z * dr == 1real,
            ;
        }
    }
}

/// Rounding keeps the order.
pub proof fn rounding_keeps_order(a: Binary64, b: Binary64)
    requires
        a.is_finite(),
        b.is_finite(),
        a.value() <= b.value(),
    ensures
        a.rounded() <= b.rounded(),
{
    rounded_is_near(a);
    rounded_is_near(b);
}

/// These are the bits of `v`.
pub open spec fn is_exactly(bits: u64, v: real) -> bool {
    (Binary64 { bits }).is_finite() && (Binary64 { bits }).value() == v
}

/// The values of the constants that tables are computed with.
pub proof fn constants_are_exact()
    ensures
        is_exactly(0, 0real),
        is_exactly(0x3fe0_0000_0000_0000, 1real / 2real),
        is_exactly(0x4000_0000_0000_0000, 2real),
        is_exactly(0xbff0_0000_0000_0000, -1real),
{
    unit_is_power();
    p2_step(-53);
    p2_step(-52);
    let zero = Binary64 { bits: 0 };
    assert(zero.field() == 0 && zero.fraction() == 0);
    let p = p2(-1074);
    assert(0real * p == 0real) by (nonlinear_arith);
    let half = Binary64 { bits: 0x3fe0_0000_0000_0000 };
    assert(half.field() == 1022 && half.fraction() == 0);
    normal_value(half, 1real / 2real);
    let two = Binary64 { bits: 0x4000_0000_0000_0000 };
    assert(two.field() == 1024 && two.fraction() == 0);
    normal_value(two, 2real);
    let minus = Binary64 { bits: 0xbff0_0000_0000_0000 };
    assert(minus.field() == 1023 && minus.fraction() == 0);
    normal_value(minus, 1real);
}

/// The value of a power of two.
proof fn normal_value(b: Binary64, v: real)
    requires
        b.mant() == NORMAL,
        4503599627370496real * p2(b.exp()) == v,
    ensures
        b.value() == if b.negative() {
            -v
        } else {
            v
        },
{
    value_parts(b);
    let m = b.mant() as real;
    let z = p2(b.exp());
    assert(m * z == v) by (nonlinear_arith)
        requires
            m == 4503599627370496real,
            4503599627370496real * z == v,
    ;
}

// ---------------------------------------------------------------------------
// Integral results
// ---------------------------------------------------------------------------

/// The integral part of a finite number that is not negative.
pub proof fn whole_is_floor(b: Binary64)
    requires
        b.is_finite(),
        b.value() >= 0real,
    ensures
        b.whole_magnitude() as real <= b.value() < b.whole_magnitude() as real + 1real,
{
    value_parts(b);
    let m = b.mant();
    let k = b.whole_magnitude();
    let z = p2(b.exp());
    let mr = m as real;
    p2_positive(b.exp());
    assert(mr * z >= 0real) by (nonlinear_arith)
        requires
            mr >= 0real,
            z > 0real,
    ;
    if b.exp() >= 0 {
        p2_is_pow2(b.exp() as nat);
        product_is_real(m as int, pow2(b.exp() as nat) as int);
    } else {
        let s = (-b.exp()) as nat;
        let d = pow2(s);
        lemma_pow2_pos(s);
        p2_is_pow2(s);
        p2_adds(b.exp(), -b.exp());
        lemma_fundamental_div_mod(m as int, d as int);
        let r = m % d;
        product_is_real(d as int, k as int);
        let dr = d as real;
        let kr = k as real;
        let rr = r as real;
        assert(mr * z == kr + rr * z) by (nonlinear_arith)
            requires
                mr == dr * kr + rr,
                z * dr == 1real,
        ;
        assert(0real <= rr * z < 1real) by (nonlinear_arith)
            requires
                0real <= rr < dr,
                z > 0real,
                z * dr == 1real,
        ;
    }
}

/// What lies half a divisor or less below a multiple of it is rounded to the
/// multiple; at exactly half, if the multiple is even.
proof fn half_even_reaches(a: nat, b: nat, k: nat)
    requires
        b >= 1,
        k >= 1,
        a < k * b,
        2 * (k * b - a) <= b,
        2 * (k * b - a) == b ==> k % 2 == 0,
    ensures
        half_even(a, b) == k,
{
    let q = k - 1;
    let r = a - q * b;
    assert(q * b == k * b - b) by (nonlinear_arith)
        requires
            q == k - 1,
    ;
    lemma_fundamental_div_mod_converse(a as int, b as int, q, r);
}

/// A number just below an integer is rounded to the integer.
pub proof fn nearest_reaches(n: nat, e: int, v: real, whole: nat)
    requires
        n >= 1,
        v == (n as real) * p2(e),
        1 <= whole < LIMIT,
        v == whole as real - (whole as real) / 18014398509481984real,
    ensures
        nearest(false, n, 1, e).is_finite(),
        nearest(false, n, 1, e).value() == whole as real,
{
    let t = ulp_exists(n, 1, e);
    let z = p2(t);
    let wr = whole as real;
    let a = scaled(n, e, t);
    let b = scaled(1, t, e);
    p2_positive(t);
    assert(v * 1real == v) by (nonlinear_arith);
    scaled_ratio(n, 1, e, t, v);
    below_limit(n, e, t, v);
    // The exponent of the last place is that of a fraction.
    assert(t > -1074) by {
        if t == -1074 {
            p2_grows(-1021, -1);
            p2_is_pow2(53);
            limits_are_powers();
            p2_adds(-1074, 53);
            p2_step(-1);
            assert(9007199254740992real * z == p2(-1021)) by (nonlinear_arith)
                requires
                    p2(-1021) == z * 9007199254740992real,
            ;
        }
    }
    too_great(n, 1, e, t - 1, v);
    p2_step(t - 1);
    assert(4503599627370496real * z <= v);
    assert(t <= 0) by {
        if t > 0 {
            p2_grows(1, t);
            p2_step(0);
        }
    }
    let k = whole * pow2((-t) as nat);
    let kr = k as real;
    assert(kr * z == wr) by {
        p2_is_pow2((-t) as nat);
        p2_adds(-t, t);
        product_is_real(whole as int, pow2((-t) as nat) as int);
        let y = p2(-t);
        assert((wr * y) * z == wr * (y * z) && wr * 1real == wr) by (nonlinear_arith);
    }
    reaches(a as real, b as real, kr, z, v, wr);
    product_is_real(k as int, b as int);
    let ab = k * b - a;
    assert(ab as real == kr * (b as real) - a as real);
    assert(k <= LIMIT && k >= NORMAL);
    assert(LIMIT as int % 2 == 0);
    half_even_reaches(a, b, k);
    if k == LIMIT {
        pack_parts(false, NORMAL as nat, t + 1);
        p2_step(t);
        value_parts(nearest(false, n, 1, e));
        assert((NORMAL as real) * (2real * z) == kr * z) by (nonlinear_arith)
            requires
                (NORMAL as real) * 2real == kr,
        ;
    } else {
        pack_parts(false, k, t);
        value_parts(nearest(false, n, 1, e));
    }
}

/// A number that fits at an exponent is below this.
proof fn below_limit(n: nat, e: int, t: int, v: real)
    requires
        v == (n as real) * p2(e),
        fits(n, 1, e, t),
    ensures
        v < 9007199254740992real * p2(t),
{
    assert(v * 1real == v) by (nonlinear_arith);
    scaled_ratio(n, 1, e, t, v);
    p2_positive(t);
    let a = scaled(n, e, t) as real;
    let b = scaled(1, t, e) as real;
    let z = p2(t);
    product_is_real(scaled(1, t, e) as int, LIMIT as int);
    assert(a < b * 9007199254740992real);
    assert(v < 9007199254740992real * z) by (nonlinear_arith)
        requires
            a < b * 9007199254740992real,
            a * z == v * b,
            b >= 1real,
            z > 0real,
    ;
}

/// How far a number just below an integer is from it, at the scale of its last
/// place.
proof fn reaches(a: real, b: real, k: real, z: real, v: real, w: real)
    requires
        z > 0real,
        b >= 1real,
        w >= 1real,
        a * z == v * b,
        k * z == w,
        v == w - w / 18014398509481984real,
        4503599627370496real * z <= v < 9007199254740992real * z,
    ensures
        0real < 2real * (k * b - a),
        2real * (k * b - a) == b * (k / 9007199254740992real),
        4503599627370496real <= k < 9007199254740993real,
        k <= 9007199254740992real ==> 2real * (k * b - a) <= b,
        k < 9007199254740992real ==> 2real * (k * b - a) < b,
{
    let c = 18014398509481984real;
    assert(v < w);
    assert(4503599627370496real * z <= k * z && v == k * z - (k * z) / c);
    cancel(4503599627370496real, k, z);
    assert(k - k / c < 9007199254740992real) by (nonlinear_arith)
        requires
            k * z - (k * z) / c < 9007199254740992real * z,
            z > 0real,
            c == 18014398509481984real,
    ;
    assert((k * b - a) * z == (b * (k / c)) * z) by (nonlinear_arith)
        requires
            a * z == v * b,
            v == k * z - (k * z) / c,
            c == 18014398509481984real,
    ;
    cancel(k * b - a, b * (k / c), z);
    cancel(b * (k / c), k * b - a, z);
    let s = k / c;
    let f = k / 9007199254740992real;
    assert(2real * (b * s) == b * f) by (nonlinear_arith)
        requires
            f == 2real * s,
    ;
    assert(b * f > 0real) by (nonlinear_arith)
        requires
            b >= 1real,
            f > 0real,
    ;
    if k <= 9007199254740992real {
        assert(b * f <= b) by (nonlinear_arith)
            requires
                b >= 1real,
                f <= 1real,
        ;
    }
    if k < 9007199254740992real {
        assert(b * f < b) by (nonlinear_arith)
            requires
                b >= 1real,
                f < 1real,
        ;
    }
}

} // verus!
