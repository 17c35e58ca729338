//! Double-precision numbers in integer arithmetic.
//!
//! A [`Binary64`] holds the 64 bits of an IEEE 754 binary64 number. The
//! operations round to nearest, ties to even. Computing them in integers lets
//! their results be stated and proved, and makes them the same everywhere.

use vstd::arithmetic::div_mod::*;
use vstd::arithmetic::mul::*;
use vstd::arithmetic::power2::*;
use vstd::prelude::*;

verus! {

/// A double-precision number, as its bits.
#[derive(Clone, Copy, Debug)]
pub struct Binary64 {
    pub bits: u64,
}

/// 2 to the power 52: the least significand of a normal number.
pub const NORMAL: u64 = 0x10_0000_0000_0000;

/// 2 to the power 53.
pub const LIMIT: u64 = 0x20_0000_0000_0000;

/// 2 to the power 63: the sign bit.
pub const SIGN: u64 = 0x8000_0000_0000_0000;

impl Binary64 {
    /// The sign bit is set.
    pub open spec fn negative(self) -> bool {
        self.bits >= SIGN
    }

    /// The eleven bits of the exponent.
    pub open spec fn field(self) -> int {
        (self.bits / NORMAL) as int % 2048
    }

    /// The fifty-two bits of the fraction.
    pub open spec fn fraction(self) -> nat {
        (self.bits % NORMAL) as nat
    }

    pub open spec fn is_nan(self) -> bool {
        self.field() == 2047 && self.fraction() != 0
    }

    pub open spec fn is_infinite(self) -> bool {
        self.field() == 2047 && self.fraction() == 0
    }

    pub open spec fn is_finite(self) -> bool {
        self.field() != 2047
    }

    /// The significand of a finite number: its magnitude is `mant` times 2 to
    /// the power `exp`.
    pub open spec fn mant(self) -> nat {
        if self.field() == 0 {
            self.fraction()
        } else {
            self.fraction() + NORMAL as nat
        }
    }

    /// The exponent that goes with `mant`.
    pub open spec fn exp(self) -> int {
        if self.field() == 0 {
            -1074
        } else {
            self.field() - 1075
        }
    }

    pub open spec fn is_zero(self) -> bool {
        self.is_finite() && self.mant() == 0
    }

    /// The significand with the sign of the number.
    pub open spec fn signed_mant(self) -> int {
        if self.negative() {
            -(self.mant() as int)
        } else {
            self.mant() as int
        }
    }
}

/// The result of an operation that has none, such as 0 / 0.
pub open spec fn nan() -> Binary64 {
    Binary64 { bits: 0x7ff8_0000_0000_0000 }
}

pub open spec fn sign_bits(negative: bool) -> nat {
    if negative {
        SIGN as nat
    } else {
        0
    }
}

pub open spec fn infinite(negative: bool) -> Binary64 {
    Binary64 { bits: (sign_bits(negative) + 2047 * NORMAL) as u64 }
}

/// The number `m` times 2 to the power `t`, where `m` is below 2 to the power
/// 53 and `t` is the least exponent that allows this. Beyond the range of the
/// format it is infinite.
pub open spec fn pack(negative: bool, m: nat, t: int) -> Binary64 {
    if m < NORMAL {
        Binary64 { bits: (sign_bits(negative) + m) as u64 }
    } else if t > 971 {
        infinite(negative)
    } else {
        Binary64 { bits: (sign_bits(negative) + (t + 1075) * NORMAL + (m - NORMAL)) as u64 }
    }
}

// ---------------------------------------------------------------------------
// Rounding
// ---------------------------------------------------------------------------

/// `n` times 2 to the power `e - t`, where that power is above 1; else `n`.
pub open spec fn scaled(n: nat, e: int, t: int) -> nat {
    if e > t {
        n * pow2((e - t) as nat)
    } else {
        n
    }
}

/// `n / d` times 2 to the power `e - t` is below 2 to the power 53.
pub open spec fn fits(n: nat, d: nat, e: int, t: int) -> bool {
    scaled(n, e, t) < scaled(d, t, e) * LIMIT
}

/// `t` is the least exponent of the format that leaves `n / d` times 2 to the
/// power `e` a significand below 2 to the power 53.
pub open spec fn is_ulp(n: nat, d: nat, e: int, t: int) -> bool {
    &&& t >= -1074
    &&& fits(n, d, e, t)
    &&& t > -1074 ==> !fits(n, d, e, t - 1)
}

/// The exponent of the last place of `n / d` times 2 to the power `e`.
pub open spec fn ulp(n: nat, d: nat, e: int) -> int {
    choose|t: int| is_ulp(n, d, e, t)
}

/// The integer nearest to `n / d`; of two equally near, the even one.
pub open spec fn half_even(n: nat, d: nat) -> nat {
    let q = n / d;
    let r = n % d;
    if 2 * r > d || (2 * r == d && q % 2 == 1) {
        q + 1
    } else {
        q
    }
}

/// The number nearest to `n / d` times 2 to the power `e`, with the given sign;
/// of two equally near, the one with an even significand.
pub open spec fn nearest(negative: bool, n: nat, d: nat, e: int) -> Binary64 {
    if n == 0 {
        pack(negative, 0, -1074)
    } else {
        let t = ulp(n, d, e);
        let m = half_even(scaled(n, e, t), scaled(d, t, e));
        if m == LIMIT {
            pack(negative, NORMAL as nat, t + 1)
        } else {
            pack(negative, m, t)
        }
    }
}

/// A significand that fits at one exponent fits at every greater one.
pub proof fn fits_above(n: nat, d: nat, e: int, t: int, u: int)
    requires
        fits(n, d, e, t),
        d >= 1,
        t <= u,
    ensures
        fits(n, d, e, u),
    decreases u - t,
{
    if t < u {
        fits_above(n, d, e, t, u - 1);
        let v = u - 1;
        let a = scaled(n, e, v);
        let b = scaled(d, v, e);
        lemma2_to64();
        if e > u {
            lemma_pow2_unfold((e - v) as nat);
            let p = pow2((e - u) as nat);
            assert(n * (2 * p) >= n * p) by (nonlinear_arith)
                requires
                    n >= 0,
                    p >= 0,
            ;
            assert(scaled(n, e, u) <= a);
        } else if e == u {
            assert(a == n * pow2(1));
            assert(scaled(n, e, u) <= a);
        } else if v > e {
            lemma_pow2_unfold((u - e) as nat);
            let p = pow2((v - e) as nat);
            assert(d * (2 * p) >= d * p) by (nonlinear_arith)
                requires
                    d >= 0,
                    p >= 0,
            ;
            assert(scaled(d, u, e) >= b);
        } else {
            assert(scaled(d, u, e) == d * pow2(1));
            assert(scaled(d, u, e) >= b);
        }
    }
}

/// At most one exponent is that of the last place.
pub proof fn ulp_is(n: nat, d: nat, e: int, t: int)
    requires
        is_ulp(n, d, e, t),
        d >= 1,
    ensures
        ulp(n, d, e) == t,
{
    let u = ulp(n, d, e);
    assert(is_ulp(n, d, e, u));
    if u < t {
        fits_above(n, d, e, u, t - 1);
    } else if t < u {
        fits_above(n, d, e, t, u - 1);
    }
}

proof fn half_even_scales(n: nat, d: nat, c: nat)
    requires
        d >= 1,
        c >= 1,
    ensures
        half_even(n * c, d * c) == half_even(n, d),
{
    let q = n / d;
    let r = n % d;
    lemma_fundamental_div_mod(n as int, d as int);
    assert(n * c == (d * c) * q + r * c) by (nonlinear_arith)
        requires
            n == d * q + r,
    ;
    assert(0 <= r * c < d * c) by (nonlinear_arith)
        requires
            0 <= r < d,
            c >= 1,
    ;
    assert((n * c) as int == q * (d * c) + r * c) by (nonlinear_arith)
        requires
            n * c == (d * c) * q + r * c,
    ;
    lemma_fundamental_div_mod_converse(
        (n * c) as int,
        (d * c) as int,
        q as int,
        (r * c) as int,
    );
    assert((2 * (r * c) > d * c) == (2 * r > d)) by (nonlinear_arith)
        requires
            c >= 1,
    ;
    assert((2 * (r * c) == d * c) == (2 * r == d)) by (nonlinear_arith)
        requires
            c >= 1,
    ;
}

/// At the scale of `t`, the second fraction is the first one with a common
/// factor in its two parts.
spec fn same_at(n1: nat, d1: nat, e1: int, n2: nat, d2: nat, e2: int, t: int) -> bool {
    exists|c: nat| same_by(n1, d1, e1, n2, d2, e2, t, c)
}

spec fn same_by(n1: nat, d1: nat, e1: int, n2: nat, d2: nat, e2: int, t: int, c: nat) -> bool {
    &&& c >= 1
    &&& scaled(n1, e1, t) * c == scaled(n2, e2, t)
    &&& scaled(d1, t, e1) * c == scaled(d2, t, e2)
}

/// Two ways to write one fraction round to one number.
proof fn nearest_same(
    negative: bool,
    n1: nat,
    d1: nat,
    e1: int,
    n2: nat,
    d2: nat,
    e2: int,
    t: int,
)
    requires
        d1 >= 1,
        d2 >= 1,
        n1 >= 1,
        n2 >= 1,
        is_ulp(n1, d1, e1, t) || is_ulp(n2, d2, e2, t),
        forall|u: int| same_at(n1, d1, e1, n2, d2, e2, u),
    ensures
        nearest(negative, n1, d1, e1) == nearest(negative, n2, d2, e2),
{
    assert forall|u: int| fits(n1, d1, e1, u) == fits(n2, d2, e2, u) by {
        let a = scaled(n1, e1, u);
        let b = scaled(d1, u, e1);
        assert(same_at(n1, d1, e1, n2, d2, e2, u));
        let c = choose|c: nat| same_by(n1, d1, e1, n2, d2, e2, u, c);
        assert((a < b * LIMIT) == (a * c < (b * c) * LIMIT)) by (nonlinear_arith)
            requires
                c >= 1,
        ;
    }
    assert(is_ulp(n1, d1, e1, t));
    ulp_is(n1, d1, e1, t);
    assert(is_ulp(n2, d2, e2, t));
    ulp_is(n2, d2, e2, t);
    assert(same_at(n1, d1, e1, n2, d2, e2, t));
    let c = choose|c: nat| same_by(n1, d1, e1, n2, d2, e2, t, c);
    assert(scaled(d1, t, e1) >= 1) by {
        if t > e1 {
            lemma_pow2_pos((t - e1) as nat);
            let p = pow2((t - e1) as nat);
            assert(d1 * p >= 1) by (nonlinear_arith)
                requires
                    d1 >= 1,
                    p >= 1,
            ;
        }
    }
    half_even_scales(scaled(n1, e1, t), scaled(d1, t, e1), c);
}

/// `n` and `d` at the scale of `e - k` are those at the scale of `e`, up to a
/// common factor.
proof fn shifted_numerator(negative: bool, n: nat, d: nat, e: int, k: nat, t: int)
    requires
        d >= 1,
        n >= 1,
        is_ulp(n, d, e, t) || is_ulp(n * pow2(k), d, e - k, t),
    ensures
        nearest(negative, n * pow2(k), d, e - k) == nearest(negative, n, d, e),
{
    let n2 = n * pow2(k);
    lemma_pow2_pos(k);
    assert(n2 >= 1) by (nonlinear_arith)
        requires
            n >= 1,
            pow2(k) >= 1,
            n2 == n * pow2(k),
    ;
    let e2 = e - k;
    assert forall|u: int| same_at(n, d, e, n2, d, e2, u) by {
        let a = e - u;
        if a > k {
            lemma_pow2_adds(k, (a - k) as nat);
            lemma_mul_is_associative(n as int, pow2(k) as int, pow2((a - k) as nat) as int);
            assert(same_by(n, d, e, n2, d, e2, u, 1));
        } else if a > 0 {
            let c = pow2((k - a) as nat);
            lemma_pow2_pos((k - a) as nat);
            lemma_pow2_adds(a as nat, (k - a) as nat);
            lemma_mul_is_associative(n as int, pow2(a as nat) as int, c as int);
            if a == k {
                lemma2_to64();
                assert(d * c == d) by (nonlinear_arith)
                    requires
                        c == 1,
                ;
            }
            assert(same_by(n, d, e, n2, d, e2, u, c));
        } else {
            let c = pow2(k);
            lemma_pow2_adds((-a) as nat, k);
            lemma_mul_is_associative(d as int, pow2((-a) as nat) as int, c as int);
            if k == 0 && a == 0 {
                lemma2_to64();
                assert(d * c == d) by (nonlinear_arith)
                    requires
                        c == 1,
                ;
            }
            assert(same_by(n, d, e, n2, d, e2, u, c));
        }
    }
    nearest_same(negative, n, d, e, n2, d, e2, t);
}

/// As above, with the factor in the denominator.
proof fn shifted_denominator(negative: bool, n: nat, d: nat, e: int, g: nat, t: int)
    requires
        d >= 1,
        n >= 1,
        is_ulp(n, d, e, t) || is_ulp(n, d * pow2(g), e + g, t),
    ensures
        nearest(negative, n, d * pow2(g), e + g) == nearest(negative, n, d, e),
{
    let d2 = d * pow2(g);
    lemma_pow2_pos(g);
    assert(d2 >= 1) by (nonlinear_arith)
        requires
            d >= 1,
            pow2(g) >= 1,
            d2 == d * pow2(g),
    ;
    let e2 = e + g;
    assert forall|u: int| same_at(n, d, e, n, d2, e2, u) by {
        let a = e - u;
        if a > 0 {
            let c = pow2(g);
            lemma_pow2_adds(a as nat, g);
            lemma_mul_is_associative(n as int, pow2(a as nat) as int, c as int);
            assert(same_by(n, d, e, n, d2, e2, u, c));
        } else if a + g > 0 {
            let c = pow2((a + g) as nat);
            lemma_pow2_pos((a + g) as nat);
            lemma_pow2_adds((-a) as nat, (a + g) as nat);
            lemma_mul_is_associative(d as int, pow2((-a) as nat) as int, c as int);
            assert(same_by(n, d, e, n, d2, e2, u, c));
        } else {
            lemma_pow2_adds(g, (-a - g) as nat);
            lemma_mul_is_associative(d as int, pow2(g) as int, pow2((-a - g) as nat) as int);
            if a + g == 0 && a == 0 {
                lemma2_to64();
                assert(d * pow2(g) == d) by (nonlinear_arith)
                    requires
                        pow2(g) == 1,
                ;
            }
            assert(same_by(n, d, e, n, d2, e2, u, 1));
        }
    }
    nearest_same(negative, n, d, e, n, d2, e2, t);
}

/// 2 to the power `k`.
pub(crate) fn power(k: u32) -> (p: u128)
    requires
        k <= 126,
    ensures
        p == pow2(k as nat),
{
    let p: u128 = 1u128 << k;
    proof {
        power_of_two(k);
    }
    p
}

proof fn power_of_two(k: u32)
    requires
        k <= 126,
    ensures
        (1u128 << k) == pow2(k as nat),
    decreases k,
{
    if k == 0 {
        assert((1u128 << 0u32) == 1u128) by (bit_vector);
        lemma2_to64();
    } else {
        let j: u32 = (k - 1) as u32;
        power_of_two(j);
        lemma_pow2_unfold(k as nat);
        assert((1u128 << k) == 2 * (1u128 << j)) by (bit_vector)
            requires
                1 <= k <= 126,
                j == k - 1,
        ;
    }
}

pub proof fn limits_are_powers()
    ensures
        NORMAL == pow2(52),
        LIMIT == pow2(53),
        SIGN == pow2(63),
{
    lemma2_to64();
    lemma2_to64_rest();
}

/// The number of bits of `m`.
fn bit_length(m: u128) -> (l: u32)
    requires
        0 < m < pow2(124),
    ensures
        1 <= l <= 124,
        pow2((l - 1) as nat) <= m < pow2(l as nat),
{
    let mut l: u32 = 0;
    let mut rest: u128 = m;
    let mut low: u128 = 1;
    proof {
        lemma2_to64();
    }
    while rest > 0
        invariant
            0 < m < pow2(124),
            l <= 124,
            low == pow2(l as nat),
            rest as int == m as int / pow2(l as nat) as int,
            l > 0 ==> pow2((l - 1) as nat) <= m,
        decreases rest,
    {
        proof {
            lemma_pow2_pos(l as nat);
            lemma_fundamental_div_mod(m as int, pow2(l as nat) as int);
            assert(m >= pow2(l as nat)) by (nonlinear_arith)
                requires
                    m == pow2(l as nat) * rest + m as int % pow2(l as nat) as int,
                    rest >= 1,
                    m as int % pow2(l as nat) as int >= 0,
                    pow2(l as nat) > 0,
            ;
            if l >= 124 {
                assert(false);
            }
            lemma_pow2_unfold((l + 1) as nat);
            lemma_div_denominator(m as int, pow2(l as nat) as int, 2);
            lemma_pow2_strictly_increases((l + 1) as nat, 126);
            power_of_two(126);
        }
        rest = rest / 2;
        low = low * 2;
        l += 1;
    }
    proof {
        lemma_pow2_pos(l as nat);
        lemma_fundamental_div_mod(m as int, pow2(l as nat) as int);
        lemma2_to64();
        if l == 0 {
            assert(m as int / 1 == m);
        }
        let p = pow2(l as nat);
        assert(p * rest == 0) by (nonlinear_arith)
            requires
                rest == 0,
        ;
        assert(((m as int) % (p as int)) < p);
    }
    l
}

/// The exponent of the last place, found from the number of bits of the
/// integer part.
proof fn locate(n: nat, d: nat, e: int, l: nat, t: int)
    requires
        d >= 1,
        l >= 1,
        pow2((l - 1) as nat) <= n / d < pow2(l),
        t == if e + l - 53 < -1074 {
            -1074
        } else {
            e + l - 53
        },
        n % d != 0 ==> t > e,
    ensures
        is_ulp(n, d, e, t),
{
    let m = n / d;
    limits_are_powers();
    lemma_fundamental_div_mod(n as int, d as int);
    assert(d * m <= n < d * (m + 1)) by (nonlinear_arith)
        requires
            n == d * m + n % d,
            0 <= n % d < d,
    ;
    if t > e {
        let s = (t - e) as nat;
        let p = pow2(s);
        lemma_pow2_adds(s, 53);
        if l < s + 53 {
            lemma_pow2_strictly_increases(l, s + 53);
        }
        assert(n < (d * p) * LIMIT) by (nonlinear_arith)
            requires
                n < d * (m + 1),
                m + 1 <= pow2(l),
                pow2(l) <= p * LIMIT,
                d >= 1,
        ;
    } else {
        let s = (e - t) as nat;
        let p = pow2(s);
        lemma_pow2_adds(l, s);
        if l + s < 53 {
            lemma_pow2_strictly_increases(l + s, 53);
        }
        lemma_pow2_pos(s);
        assert(n * p < d * LIMIT) by (nonlinear_arith)
            requires
                n == d * m,
                m < pow2(l),
                pow2(l) * p <= LIMIT,
                d >= 1,
                p >= 1,
        ;
        lemma2_to64();
        if e == t {
            assert(n * p == n) by (nonlinear_arith)
                requires
                    p == 1,
            ;
        }
    }
    if t > -1074 {
        let low = pow2((l - 1) as nat);
        if t - 1 >= e {
            let s = (t - 1 - e) as nat;
            let p = pow2(s);
            lemma_pow2_adds(s, 53);
            assert(l - 1 == s + 53);
            assert(n >= (d * p) * LIMIT) by (nonlinear_arith)
                requires
                    n >= d * m,
                    m >= low,
                    low == p * LIMIT,
                    d >= 1,
            ;
            lemma2_to64();
            if t - 1 == e {
                assert(d * p == d) by (nonlinear_arith)
                    requires
                        p == 1,
                ;
            }
        } else {
            let s = (e - (t - 1)) as nat;
            let p = pow2(s);
            lemma_pow2_adds((l - 1) as nat, s);
            assert(l - 1 + s == 53);
            assert(n * p >= d * LIMIT) by (nonlinear_arith)
                requires
                    n >= d * m,
                    m >= low,
                    low * p == LIMIT,
                    d >= 1,
                    p >= 0,
            ;
        }
    }
}

/// Rounding at a place above the integer part needs of the fractional part
/// only whether it is zero.
proof fn round_above(n: nat, d: nat, s: nat)
    requires
        d >= 1,
        s >= 1,
    ensures
        ({
            let m = n / d;
            let p = pow2(s);
            let half = pow2((s - 1) as nat);
            let q = m / p;
            let r = m % p;
            half_even(n, d * p) == if r > half || (r == half && (n % d != 0 || q % 2 == 1)) {
                q + 1
            } else {
                q
            }
        }),
{
    let m = n / d;
    let p = pow2(s);
    let half = pow2((s - 1) as nat);
    let q = m / p;
    let r = m % p;
    let rest = n % d;
    lemma_pow2_pos(s);
    lemma_pow2_unfold(s);
    lemma_fundamental_div_mod(n as int, d as int);
    lemma_fundamental_div_mod(m as int, p as int);
    let big = (d * r + rest) as int;
    assert(n as int == q * (d * p) + big) by (nonlinear_arith)
        requires
            n == d * m + rest,
            m == p * q + r,
            big == d * r + rest,
    ;
    assert(0 <= big < d * p) by (nonlinear_arith)
        requires
            big == d * r + rest,
            0 <= r,
            r + 1 <= p,
            0 <= rest < d,
    ;
    lemma_fundamental_div_mod_converse(n as int, (d * p) as int, q as int, big);
    assert(d * p == 2 * (d * half)) by (nonlinear_arith)
        requires
            p == 2 * half,
    ;
    if r > half {
        assert(d * r > d * half) by (nonlinear_arith)
            requires
                r > half,
                d >= 1,
        ;
    } else if r < half {
        assert(d * r + d <= d * half) by (nonlinear_arith)
            requires
                r + 1 <= half,
                d >= 1,
        ;
    }
}

/// The bits of a number, from its sign, its significand and its exponent.
fn pack_exec(negative: bool, m: u64, t: i32) -> (r: Binary64)
    requires
        m < LIMIT,
        -1074 <= t <= 100000,
    ensures
        r == pack(negative, m as nat, t as int),
{
    let sign: u64 = if negative {
        SIGN
    } else {
        0
    };
    if m < NORMAL {
        Binary64 { bits: sign + m }
    } else if t > 971 {
        Binary64 { bits: sign + 2047 * NORMAL }
    } else {
        let field: u64 = (t + 1075) as u64;
        Binary64 { bits: sign + field * NORMAL + (m - NORMAL) }
    }
}

/// Rounds `n / d` times 2 to the power `e`, given the integer part of `n / d`
/// and whether there is a fractional part.
fn round(negative: bool, m: u128, inexact: bool, e: i32, n: Ghost<nat>, d: Ghost<nat>) -> (r:
    Binary64)
    requires
        d@ >= 1,
        m == n@ / d@,
        inexact == (n@ % d@ != 0),
        0 < m < pow2(124),
        inexact ==> m >= pow2(54),
        -5000 <= e <= 5000,
    ensures
        r == nearest(negative, n@, d@, e as int),
        exists|t: int| is_ulp(n@, d@, e as int, t),
{
    let l: u32 = bit_length(m);
    let low: i32 = e + l as i32 - 53;
    let t: i32 = if low < -1074 {
        -1074
    } else {
        low
    };
    proof {
        limits_are_powers();
        lemma_fundamental_div_mod(n@ as int, d@ as int);
        assert(n@ > 0) by {
            if n@ == 0 {
                assert(0nat / d@ == 0) by (nonlinear_arith)
                    requires
                        d@ >= 1,
                ;
            }
        }
        if inexact && l < 55 {
            if l < 54 {
                lemma_pow2_strictly_increases(l as nat, 54);
            }
        }
        locate(n@, d@, e as int, l as nat, t as int);
        ulp_is(n@, d@, e as int, t as int);
    }
    let q: u64;
    if t <= e {
        let p: u128 = power((e - t) as u32);
        proof {
            let s = (e - t) as nat;
            lemma_pow2_adds(l as nat, s);
            if l + s < 53 {
                lemma_pow2_strictly_increases(l as nat + s, 53);
            }
            lemma_pow2_pos(s);
            assert(m * p < LIMIT) by (nonlinear_arith)
                requires
                    m < pow2(l as nat),
                    pow2(l as nat) * p <= LIMIT,
                    p >= 1,
            ;
            let big = n@ * p as nat;
            assert(big as int == (m * p) * d@ + 0) by (nonlinear_arith)
                requires
                    n@ == d@ * m,
                    big == n@ * p as nat,
            ;
            lemma_fundamental_div_mod_converse(big as int, d@ as int, (m * p) as int, 0);
            lemma2_to64();
            if e == t {
                assert(n@ * p as nat == n@) by (nonlinear_arith)
                    requires
                        p == 1,
                ;
            }
        }
        q = (m * p) as u64;
    } else {
        let s: u32 = (t - e) as u32;
        proof {
            round_above(n@, d@, s as nat);
        }
        if s >= 126 {
            proof {
                lemma_pow2_strictly_increases(124, s as nat);
                lemma_pow2_strictly_increases(124, (s - 1) as nat);
                lemma_basic_div(m as int, pow2(s as nat) as int);
                lemma_small_mod(m as nat, pow2(s as nat));
            }
            q = 0;
        } else {
            let p: u128 = power(s);
            let half: u128 = power(s - 1);
            proof {
                lemma_pow2_pos(s as nat);
            }
            let a: u128 = m / p;
            let b: u128 = m % p;
            proof {
                lemma_fundamental_div_mod(m as int, p as int);
                lemma_pow2_adds(s as nat, 53);
                if l < s + 53 {
                    lemma_pow2_strictly_increases(l as nat, s as nat + 53);
                }
                assert(a < LIMIT) by (nonlinear_arith)
                    requires
                        m == p * a + b,
                        b >= 0,
                        m < p * LIMIT,
                        p >= 1,
                ;
            }
            if b > half || (b == half && (inexact || a % 2 == 1)) {
                q = a as u64 + 1;
            } else {
                q = a as u64;
            }
        }
    }
    if q == LIMIT {
        pack_exec(negative, NORMAL, t + 1)
    } else {
        pack_exec(negative, q, t)
    }
}

// ---------------------------------------------------------------------------
// Parts of a number
// ---------------------------------------------------------------------------

impl Binary64 {
    pub(crate) fn is_negative(self) -> (r: bool)
        ensures
            r == self.negative(),
    {
        self.bits >= SIGN
    }

    fn exponent_field(self) -> (r: u64)
        ensures
            r == self.field(),
            r < 2048,
    {
        (self.bits / NORMAL) % 2048
    }

    /// Whether this is not a number.
    pub fn nan(self) -> (r: bool)
        ensures
            r == self.is_nan(),
    {
        self.exponent_field() == 2047 && self.bits % NORMAL != 0
    }

    pub(crate) fn infinity(self) -> (r: bool)
        ensures
            r == self.is_infinite(),
    {
        self.exponent_field() == 2047 && self.bits % NORMAL == 0
    }

    pub(crate) fn significand(self) -> (r: u64)
        ensures
            r == self.mant(),
            r < LIMIT,
    {
        let fraction: u64 = self.bits % NORMAL;
        if self.exponent_field() == 0 {
            fraction
        } else {
            fraction + NORMAL
        }
    }

    pub(crate) fn exponent(self) -> (r: i32)
        ensures
            r == self.exp(),
            -1074 <= r <= 972,
            r > -1074 ==> self.mant() >= NORMAL,
    {
        let field: u64 = self.exponent_field();
        if field == 0 {
            -1074
        } else {
            field as i32 - 1075
        }
    }

    /// This number with the other sign.
    pub open spec fn spec_negated(self) -> Binary64 {
        Binary64 { bits: if self.negative() {
            (self.bits - SIGN) as u64
        } else {
            (self.bits + SIGN) as u64
        } }
    }

    /// This number with the other sign.
    pub fn negated(self) -> (r: Binary64)
        ensures
            r == self.spec_negated(),
    {
        if self.is_negative() {
            Binary64 { bits: self.bits - SIGN }
        } else {
            Binary64 { bits: self.bits + SIGN }
        }
    }

    /// This number without its sign.
    pub open spec fn spec_magnitude(self) -> Binary64 {
        if self.negative() {
            self.spec_negated()
        } else {
            self
        }
    }

    /// This number without its sign.
    pub fn magnitude(self) -> (r: Binary64)
        ensures
            r == self.spec_magnitude(),
    {
        if self.is_negative() {
            self.negated()
        } else {
            self
        }
    }
}

/// Changing the sign leaves the magnitude alone.
pub proof fn negated_parts(a: Binary64)
    ensures
        a.spec_negated().negative() == !a.negative(),
        a.spec_negated().field() == a.field(),
        a.spec_negated().fraction() == a.fraction(),
        a.spec_negated().mant() == a.mant(),
        a.spec_negated().exp() == a.exp(),
        a.spec_negated().spec_negated() == a,
{
    let b = a.bits as int;
    let c = a.spec_negated().bits as int;
    assert(SIGN == 2048 * NORMAL);
    assert(c == b + 2048 * NORMAL || c == b - 2048 * NORMAL);
    assert(c / (NORMAL as int) == b / (NORMAL as int) + 2048 || c / (NORMAL as int) == b / (
    NORMAL as int) - 2048);
    assert(c % (NORMAL as int) == b % (NORMAL as int));
}

fn not_a_number() -> (r: Binary64)
    ensures
        r == nan(),
{
    Binary64 { bits: 0x7ff8_0000_0000_0000 }
}

fn signed_infinity(negative: bool) -> (r: Binary64)
    ensures
        r == infinite(negative),
{
    if negative {
        Binary64 { bits: SIGN + 2047 * NORMAL }
    } else {
        Binary64 { bits: 2047 * NORMAL }
    }
}

fn signed_zero(negative: bool) -> (r: Binary64)
    ensures
        r == pack(negative, 0, -1074),
{
    pack_exec(negative, 0, -1074)
}

// ---------------------------------------------------------------------------
// Operations
// ---------------------------------------------------------------------------

/// The number `n`.
pub open spec fn of_nat(n: nat) -> Binary64 {
    nearest(false, n, 1, 0)
}

/// The number `n`.
pub fn of_u32(n: u32) -> (r: Binary64)
    ensures
        r == of_nat(n as nat),
{
    if n == 0 {
        signed_zero(false)
    } else {
        proof {
            lemma2_to64();
            lemma_pow2_strictly_increases(32, 124);
        }
        round(false, n as u128, false, 0, Ghost(n as nat), Ghost(1nat))
    }
}

impl Binary64 {
    /// The product of two numbers.
    pub open spec fn times(self, b: Binary64) -> Binary64 {
        let negative = self.negative() != b.negative();
        if self.is_nan() || b.is_nan() {
            nan()
        } else if self.is_infinite() || b.is_infinite() {
            if self.is_zero() || b.is_zero() {
                nan()
            } else {
                infinite(negative)
            }
        } else {
            nearest(negative, self.mant() * b.mant(), 1, self.exp() + b.exp())
        }
    }

    /// The product of two numbers.
    pub fn multiply(self, b: Binary64) -> (r: Binary64)
        ensures
            r == self.times(b),
    {
        let negative: bool = self.is_negative() != b.is_negative();
        if self.nan() || b.nan() {
            return not_a_number();
        }
        let m1: u64 = self.significand();
        let m2: u64 = b.significand();
        if self.infinity() || b.infinity() {
            if (!self.infinity() && m1 == 0) || (!b.infinity() && m2 == 0) {
                return not_a_number();
            }
            return signed_infinity(negative);
        }
        if m1 == 0 || m2 == 0 {
            proof {
                assert(m1 * m2 == 0) by (nonlinear_arith)
                    requires
                        m1 == 0 || m2 == 0,
                ;
            }
            return signed_zero(negative);
        }
        let e: i32 = self.exponent() + b.exponent();
        proof {
            limits_are_powers();
            lemma_pow2_adds(53, 53);
            lemma_pow2_strictly_increases(106, 124);
            power_of_two(106);
            assert(0 < m1 * m2 < LIMIT * LIMIT) by (nonlinear_arith)
                requires
                    0 < m1 < LIMIT,
                    0 < m2 < LIMIT,
            ;
        }
        let m: u128 = m1 as u128 * m2 as u128;
        round(negative, m, false, e, Ghost(m as nat), Ghost(1nat))
    }

    /// The quotient of two numbers.
    pub open spec fn over(self, b: Binary64) -> Binary64 {
        let negative = self.negative() != b.negative();
        if self.is_nan() || b.is_nan() {
            nan()
        } else if self.is_infinite() {
            if b.is_infinite() {
                nan()
            } else {
                infinite(negative)
            }
        } else if b.is_infinite() {
            pack(negative, 0, -1074)
        } else if b.is_zero() {
            if self.is_zero() {
                nan()
            } else {
                infinite(negative)
            }
        } else {
            nearest(negative, self.mant(), b.mant(), self.exp() - b.exp())
        }
    }

    /// The quotient of two numbers.
    pub fn divide(self, b: Binary64) -> (r: Binary64)
        ensures
            r == self.over(b),
    {
        let negative: bool = self.is_negative() != b.is_negative();
        if self.nan() || b.nan() {
            return not_a_number();
        }
        if self.infinity() {
            if b.infinity() {
                return not_a_number();
            }
            return signed_infinity(negative);
        }
        if b.infinity() {
            return signed_zero(negative);
        }
        let m1: u64 = self.significand();
        let m2: u64 = b.significand();
        if m2 == 0 {
            if m1 == 0 {
                return not_a_number();
            }
            return signed_infinity(negative);
        }
        if m1 == 0 {
            return signed_zero(negative);
        }
        let e: i32 = self.exponent() - b.exponent();
        let mut big: u64 = m1;
        let mut k: i32 = 0;
        proof {
            lemma2_to64();
            limits_are_powers();
            assert(m1 * pow2(0) == m1) by (nonlinear_arith)
                requires
                    pow2(0) == 1,
            ;
        }
        while big < NORMAL
            invariant
                0 < m1,
                0 < big < LIMIT,
                0 <= k <= 52,
                big == m1 * pow2(k as nat),
                pow2(k as nat) <= big,
                NORMAL == pow2(52),
            decreases LIMIT - big,
        {
            proof {
                lemma_pow2_unfold((k + 1) as nat);
                if k >= 52 {
                    assert(false);
                }
                let p = pow2(k as nat);
                assert(m1 * (2 * p) == 2 * (m1 * p)) by (nonlinear_arith);
            }
            big = big * 2;
            k += 1;
        }
        let p: u128 = power(70);
        proof {
            lemma_pow2_pos(70);
            lemma_pow2_adds(53, 70);
            lemma_pow2_adds(52, 70);
            lemma_pow2_strictly_increases(123, 124);
            power_of_two(123);
            assert(big * p < pow2(123)) by (nonlinear_arith)
                requires
                    big < LIMIT,
                    LIMIT * p == pow2(123),
                    p > 0,
            ;
            assert(big * p >= pow2(122)) by (nonlinear_arith)
                requires
                    big >= NORMAL,
                    NORMAL * p == pow2(122),
                    p > 0,
            ;
        }
        let n: u128 = big as u128 * p;
        let q: u128 = n / m2 as u128;
        let inexact: bool = n % m2 as u128 != 0;
        proof {
            lemma_fundamental_div_mod(n as int, m2 as int);
            lemma_pow2_adds(54, 53);
            lemma_pow2_strictly_increases(107, 122);
            assert(q >= pow2(54)) by (nonlinear_arith)
                requires
                    n == m2 * q + n as int % m2 as int,
                    n as int % (m2 as int) < m2,
                    n >= pow2(122),
                    pow2(122) > pow2(54) * LIMIT,
                    m2 < LIMIT,
                    m2 > 0,
                    q >= 0,
            ;
            lemma_div_nonincreasing(n as int, m2 as int);
            lemma_pow2_pos(54);
        }
        let r: Binary64 = round(
            negative,
            q,
            inexact,
            e - k - 70,
            Ghost(n as nat),
            Ghost(m2 as nat),
        );
        proof {
            let j = (k + 70) as nat;
            lemma_pow2_adds(k as nat, 70);
            lemma_mul_is_associative(m1 as int, pow2(k as nat) as int, p as int);
            assert(n as nat == m1 as nat * pow2(j));
            let low = (e - k - 70) as int;
            let t = choose|t: int| is_ulp(n as nat, m2 as nat, low, t);
            assert(is_ulp(m1 as nat * pow2(j), m2 as nat, e as int - j, t));
            shifted_numerator(negative, m1 as nat, m2 as nat, e as int, j, t);
        }
        r
    }
}

/// The exponent at which two finite numbers both have integer significands.
pub open spec fn common(a: Binary64, b: Binary64) -> int {
    if a.exp() < b.exp() {
        a.exp()
    } else {
        b.exp()
    }
}

/// The signed significand of a finite number at a lower exponent.
pub open spec fn aligned(a: Binary64, e: int) -> int {
    a.signed_mant() * pow2((a.exp() - e) as nat)
}

pub open spec fn abs(i: int) -> nat {
    if i < 0 {
        (-i) as nat
    } else {
        i as nat
    }
}

/// The number nearest to `sum` times 2 to the power `e`; a zero sum has the
/// given sign.
pub open spec fn nearest_signed(sum: int, e: int, zero_negative: bool) -> Binary64 {
    if sum == 0 {
        pack(zero_negative, 0, -1074)
    } else {
        nearest(sum < 0, abs(sum), 1, e)
    }
}

impl Binary64 {
    /// The sum of two numbers.
    pub open spec fn plus(self, b: Binary64) -> Binary64 {
        if self.is_nan() || b.is_nan() {
            nan()
        } else if self.is_infinite() {
            if b.is_infinite() && self.negative() != b.negative() {
                nan()
            } else {
                infinite(self.negative())
            }
        } else if b.is_infinite() {
            infinite(b.negative())
        } else {
            let e = common(self, b);
            nearest_signed(
                aligned(self, e) + aligned(b, e),
                e,
                self.negative() && b.negative(),
            )
        }
    }

    /// The difference of two numbers.
    pub open spec fn minus(self, b: Binary64) -> Binary64 {
        self.plus(b.spec_negated())
    }

    /// The sum of two numbers.
    pub fn sum(self, b: Binary64) -> (r: Binary64)
        ensures
            r == self.plus(b),
    {
        if self.nan() || b.nan() {
            return not_a_number();
        }
        if self.infinity() {
            if b.infinity() && self.is_negative() != b.is_negative() {
                return not_a_number();
            }
            return signed_infinity(self.is_negative());
        }
        if b.infinity() {
            return signed_infinity(b.is_negative());
        }
        if self.exponent() >= b.exponent() {
            sum_ordered(self, b)
        } else {
            sum_ordered(b, self)
        }
    }

    /// The difference of two numbers.
    pub fn subtract(self, b: Binary64) -> (r: Binary64)
        ensures
            r == self.minus(b),
    {
        self.sum(b.negated())
    }
}

/// The sum of two finite numbers, the first with the greater exponent.
fn sum_ordered(a: Binary64, b: Binary64) -> (r: Binary64)
    requires
        a.is_finite(),
        b.is_finite(),
        a.exp() >= b.exp(),
    ensures
        r == nearest_signed(
            aligned(a, b.exp()) + aligned(b, b.exp()),
            b.exp(),
            a.negative() && b.negative(),
        ),
{
    let m1: u64 = a.significand();
    let m2: u64 = b.significand();
    let e1: i32 = a.exponent();
    let e2: i32 = b.exponent();
    let s1: bool = a.is_negative();
    let s2: bool = b.is_negative();
    let gap: u32 = (e1 - e2) as u32;
    proof {
        lemma2_to64();
        limits_are_powers();
        lemma_pow2_pos(gap as nat);
        let p = pow2(gap as nat);
        assert(aligned(b, b.exp()) == b.signed_mant()) by (nonlinear_arith)
            requires
                aligned(b, b.exp()) == b.signed_mant() * pow2(0),
                pow2(0) == 1,
        ;
        assert(-(m1 as int) * p == -(m1 * p)) by (nonlinear_arith);
        assert(aligned(a, b.exp()) == if s1 {
            -(m1 * p)
        } else {
            m1 * p
        });
    }
    if gap <= 70 {
        let p: u128 = power(gap);
        proof {
            lemma_pow2_adds(53, 70);
            lemma_pow2_strictly_increases(123, 124);
            lemma_pow2_strictly_increases(53, 123);
            lemma_pow2_unfold(124);
            power_of_two(124);
            if gap < 70 {
                lemma_pow2_strictly_increases(gap as nat, 70);
            }
            assert(0 <= m1 * p < pow2(123)) by (nonlinear_arith)
                requires
                    0 <= m1 < LIMIT,
                    0 < p <= pow2(70),
                    LIMIT * pow2(70) == pow2(123),
            ;
        }
        let big: u128 = m1 as u128 * p;
        let small: u128 = m2 as u128;
        let (negative, m): (bool, u128) = if s1 == s2 {
            (s1, big + small)
        } else if big >= small {
            (s1, big - small)
        } else {
            (s2, small - big)
        };
        if m == 0 {
            signed_zero(s1 && s2)
        } else {
            round(negative, m, false, e2, Ghost(m as nat), Ghost(1nat))
        }
    } else {
        let g: u32 = gap - 70;
        let p70: u128 = power(70);
        proof {
            lemma_pow2_pos(70);
            lemma_pow2_pos(g as nat);
            lemma_pow2_adds(52, 70);
            lemma_pow2_adds(53, 70);
            lemma_pow2_adds(70, g as nat);
            lemma_pow2_unfold(124);
            lemma_pow2_unfold(54);
            lemma_pow2_unfold(55);
            lemma_pow2_strictly_increases(55, 122);
            lemma_pow2_strictly_increases(123, 124);
            power_of_two(124);
            assert(pow2(122) <= m1 * p70 < pow2(123)) by (nonlinear_arith)
                requires
                    NORMAL <= m1 < LIMIT,
                    NORMAL * p70 == pow2(122),
                    LIMIT * p70 == pow2(123),
                    p70 > 0,
            ;
        }
        let big: u128 = m1 as u128 * p70;
        let (f, rest): (u64, bool) = if g >= 53 {
            proof {
                if g > 53 {
                    lemma_pow2_strictly_increases(53, g as nat);
                }
                lemma_basic_div(m2 as int, pow2(g as nat) as int);
                lemma_small_mod(m2 as nat, pow2(g as nat));
            }
            (0, m2 != 0)
        } else {
            let p: u128 = power(g);
            proof {
                lemma_div_nonincreasing(m2 as int, p as int);
            }
            ((m2 as u128 / p) as u64, m2 as u128 % p != 0)
        };
        let ghost d = pow2(g as nat);
        let ghost low = m2 as int % d as int;
        let m: u128 = if s1 == s2 {
            big + f as u128
        } else if rest {
            big - f as u128 - 1
        } else {
            big - f as u128
        };
        let ghost n: int = if s1 == s2 {
            big * d + m2
        } else {
            big * d - m2
        };
        proof {
            lemma_fundamental_div_mod(m2 as int, d as int);
            let part = if s1 == s2 {
                low
            } else if rest {
                d - low
            } else {
                0int
            };
            assert(n == m * d + part) by (nonlinear_arith)
                requires
                    m2 == d * f + low,
                    s1 == s2 ==> n == big * d + m2 && m == big + f && part == low,
                    s1 != s2 ==> n == big * d - m2,
                    s1 != s2 && rest ==> m == big - f - 1 && part == d - low,
                    s1 != s2 && !rest ==> m == big - f && part == 0 && low == 0,
            ;
            assert(n > 0) by (nonlinear_arith)
                requires
                    n == m * d + part,
                    m >= 1,
                    d >= 1,
                    part >= 0,
            ;
            lemma_fundamental_div_mod_converse(n, d as int, m as int, part);
            let q = pow2(gap as nat);
            assert(m1 * q == big * d) by (nonlinear_arith)
                requires
                    big == m1 * p70,
                    q == p70 * d,
            ;
        }
        let ghost exact = n as nat;
        let r: Binary64 = round(s1, m, rest, e1 - 70, Ghost(exact), Ghost(d));
        proof {
            let low_exponent = (e1 - 70) as int;
            let t = choose|t: int| is_ulp(exact, d, low_exponent, t);
            assert(1 * d == d) by (nonlinear_arith);
            assert(is_ulp(exact, 1 * d, e2 as int + g as nat, t));
            shifted_denominator(s1, exact, 1, e2 as int, g as nat, t);
        }
        r
    }
}

// ---------------------------------------------------------------------------
// Order
// ---------------------------------------------------------------------------

impl Binary64 {
    /// This number is below `b`. Nothing is below or above what is not a
    /// number.
    pub open spec fn below(self, b: Binary64) -> bool {
        if self.is_nan() || b.is_nan() {
            false
        } else if self.is_infinite() {
            self.negative() && !(b.is_infinite() && b.negative())
        } else if b.is_infinite() {
            !b.negative()
        } else {
            let e = common(self, b);
            aligned(self, e) < aligned(b, e)
        }
    }

    /// Whether this number is below `b`.
    pub fn less(self, b: Binary64) -> (r: bool)
        ensures
            r == self.below(b),
    {
        if self.nan() || b.nan() {
            return false;
        }
        if self.infinity() {
            return self.is_negative() && !(b.infinity() && b.is_negative());
        }
        if b.infinity() {
            return !b.is_negative();
        }
        let m1: u64 = self.significand();
        let m2: u64 = b.significand();
        let e1: i32 = self.exponent();
        let e2: i32 = b.exponent();
        let s1: bool = self.is_negative();
        let s2: bool = b.is_negative();
        proof {
            let e = common(self, b);
            let p1 = pow2((e1 - e) as nat) as int;
            let p2 = pow2((e2 - e) as nat) as int;
            lemma_pow2_pos((e1 - e) as nat);
            lemma_pow2_pos((e2 - e) as nat);
            lemma2_to64();
            assert(-(m1 as int) * p1 == -(m1 * p1)) by (nonlinear_arith);
            assert(-(m2 as int) * p2 == -(m2 * p2)) by (nonlinear_arith);
            if e1 > e2 {
                higher_exponent_is_greater(m1 as int, m2 as int, (e1 - e2) as nat);
            } else if e2 > e1 {
                higher_exponent_is_greater(m2 as int, m1 as int, (e2 - e1) as nat);
            }
            assert(m1 * p1 >= 0 && (m1 * p1 == 0) == (m1 == 0)) by (nonlinear_arith)
                requires
                    m1 >= 0,
                    p1 >= 1,
            ;
            assert(m2 * p2 >= 0 && (m2 * p2 == 0) == (m2 == 0)) by (nonlinear_arith)
                requires
                    m2 >= 0,
                    p2 >= 1,
            ;
            if e1 == e2 {
                assert(m1 * p1 == m1 && m2 * p2 == m2) by (nonlinear_arith)
                    requires
                        p1 == 1,
                        p2 == 1,
                ;
            }
        }
        if s1 != s2 {
            return s1 && !(m1 == 0 && m2 == 0);
        }
        let smaller: bool = e1 < e2 || (e1 == e2 && m1 < m2);
        let equal: bool = e1 == e2 && m1 == m2;
        if s1 {
            !smaller && !equal
        } else {
            smaller
        }
    }
}

proof fn higher_exponent_is_greater(m1: int, m2: int, gap: nat)
    requires
        m1 >= NORMAL,
        0 <= m2 < LIMIT,
        gap >= 1,
    ensures
        m1 * pow2(gap) > m2 * pow2(0),
{
    lemma2_to64();
    if gap > 1 {
        lemma_pow2_strictly_increases(1, gap);
    }
    let p = pow2(gap);
    assert(m1 * p >= m1 * 2) by (nonlinear_arith)
        requires
            p >= 2,
            m1 >= 0,
    ;
    assert(m2 * pow2(0) == m2) by (nonlinear_arith)
        requires
            pow2(0) == 1,
    ;
}

// ---------------------------------------------------------------------------
// Integers
// ---------------------------------------------------------------------------

/// `i`, or the bound that it lies beyond.
pub open spec fn clamped(i: int, low: int, high: int) -> int {
    if i < low {
        low
    } else if i > high {
        high
    } else {
        i
    }
}

/// `m` times 2 to the power `e`, as far as 64 bits hold it.
fn integral_magnitude(m: u64, e: u32) -> (r: u64)
    requires
        m < LIMIT,
        m >= NORMAL || m == 0,
    ensures
        r == clamped((m * pow2(e as nat)) as int, 0, u64::MAX as int),
{
    proof {
        limits_are_powers();
        let p = pow2(e as nat);
        assert(0 * p == 0) by (nonlinear_arith);
    }
    if m == 0 {
        return 0;
    }
    if e >= 12 {
        proof {
            lemma_pow2_adds(52, 12);
            lemma2_to64_rest();
            if e > 12 {
                lemma_pow2_strictly_increases(12, e as nat);
            }
            let p = pow2(e as nat);
            assert(m * p >= NORMAL * pow2(12)) by (nonlinear_arith)
                requires
                    m >= NORMAL,
                    p >= pow2(12),
            ;
        }
        return u64::MAX;
    }
    let p: u128 = power(e);
    proof {
        lemma_pow2_pos(e as nat);
        lemma_pow2_strictly_increases(e as nat, 12);
        lemma2_to64();
        lemma2_to64_rest();
        assert(m * p <= u128::MAX) by (nonlinear_arith)
            requires
                m < LIMIT,
                p < 4096,
        ;
    }
    let big: u128 = m as u128 * p;
    if big > u64::MAX as u128 {
        u64::MAX
    } else {
        big as u64
    }
}

impl Binary64 {
    /// The integer nearest to the magnitude of a finite number; of two equally
    /// near, the greater one.
    pub open spec fn rounded_magnitude(self) -> nat {
        if self.exp() >= 0 {
            self.mant() * pow2(self.exp() as nat)
        } else {
            let d = pow2((-self.exp()) as nat);
            (2 * self.mant() + d) / (2 * d)
        }
    }

    /// The integer nearest to a finite number; of two equally near, the one
    /// farther from zero.
    pub open spec fn rounded(self) -> int {
        if self.negative() {
            -(self.rounded_magnitude() as int)
        } else {
            self.rounded_magnitude() as int
        }
    }

    /// The nearest integer within the bounds. An infinite number gives a bound,
    /// and what is not a number gives 0.
    pub open spec fn to_integer(self, low: int, high: int) -> int {
        if self.is_nan() {
            0
        } else if self.is_infinite() {
            if self.negative() {
                low
            } else {
                high
            }
        } else {
            clamped(self.rounded(), low, high)
        }
    }

    fn nearest_magnitude(self) -> (r: u64)
        requires
            self.is_finite(),
        ensures
            r == clamped(self.rounded_magnitude() as int, 0, u64::MAX as int),
    {
        let m: u64 = self.significand();
        let e: i32 = self.exponent();
        proof {
            limits_are_powers();
        }
        if e >= 0 {
            integral_magnitude(m, e as u32)
        } else {
            let s: i32 = -e;
            proof {
                lemma_pow2_pos(s as nat);
            }
            if s >= 55 {
                proof {
                    lemma_pow2_unfold(54);
                    lemma_pow2_unfold(55);
                    if s > 55 {
                        lemma_pow2_strictly_increases(55, s as nat);
                    }
                    let d = pow2(s as nat) as int;
                    lemma_basic_div(2 * m + d, 2 * d);
                }
                0
            } else {
                let p: u128 = power(s as u32);
                proof {
                    lemma_pow2_strictly_increases(s as nat, 55);
                    lemma2_to64();
                    lemma2_to64_rest();
                    lemma_div_nonincreasing(2 * m + p, 2 * p as int);
                }
                let q: u128 = (2 * m as u128 + p) / (2 * p);
                q as u64
            }
        }
    }

    /// The integral part of the magnitude of a finite number.
    pub open spec fn whole_magnitude(self) -> nat {
        if self.exp() >= 0 {
            self.mant() * pow2(self.exp() as nat)
        } else {
            self.mant() / pow2((-self.exp()) as nat)
        }
    }

    /// The integral part of a number, as far as 64 bits without a sign hold it;
    /// what is not a number gives 0.
    pub open spec fn whole(self) -> int {
        if self.is_nan() || self.negative() {
            0
        } else if self.is_infinite() {
            u64::MAX as int
        } else {
            clamped(self.whole_magnitude() as int, 0, u64::MAX as int)
        }
    }

    /// The integral part, as far as 64 bits without a sign hold it.
    pub fn to_whole(self) -> (r: u64)
        ensures
            r == self.whole(),
    {
        if self.nan() || self.is_negative() {
            return 0;
        }
        if self.infinity() {
            return u64::MAX;
        }
        let m: u64 = self.significand();
        let e: i32 = self.exponent();
        proof {
            limits_are_powers();
        }
        if e >= 0 {
            integral_magnitude(m, e as u32)
        } else {
            let s: i32 = -e;
            proof {
                lemma_pow2_pos(s as nat);
            }
            if s >= 53 {
                proof {
                    if s > 53 {
                        lemma_pow2_strictly_increases(53, s as nat);
                    }
                    lemma_basic_div(m as int, pow2(s as nat) as int);
                }
                0
            } else {
                let p: u128 = power(s as u32);
                proof {
                    lemma_div_nonincreasing(m as int, p as int);
                }
                (m as u128 / p) as u64
            }
        }
    }

    /// The nearest integer of 32 bits.
    pub fn to_i32(self) -> (r: i32)
        ensures
            r == self.to_integer(i32::MIN as int, i32::MAX as int),
    {
        if self.nan() {
            return 0;
        }
        let negative: bool = self.is_negative();
        if self.infinity() {
            return if negative {
                i32::MIN
            } else {
                i32::MAX
            };
        }
        let m: u64 = self.nearest_magnitude();
        if negative {
            if m >= 0x8000_0000 {
                i32::MIN
            } else {
                -(m as i32)
            }
        } else {
            if m >= 0x7fff_ffff {
                i32::MAX
            } else {
                m as i32
            }
        }
    }

    /// The nearest integer between 0 and `high`.
    pub fn to_u64(self, high: u64) -> (r: u64)
        ensures
            r == self.to_integer(0, high as int),
    {
        if self.nan() {
            return 0;
        }
        let negative: bool = self.is_negative();
        if self.infinity() {
            return if negative {
                0
            } else {
                high
            };
        }
        let m: u64 = self.nearest_magnitude();
        if negative {
            0
        } else if m > high {
            high
        } else {
            m
        }
    }
}

} // verus!
