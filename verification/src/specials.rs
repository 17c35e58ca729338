//! Laws of double precision at its edges: ties, infinite numbers, and what is
//! not a number.

use vstd::arithmetic::div_mod::*;
use vstd::prelude::*;

use crate::binary64::{half_even, infinite, nan, Binary64, NORMAL, SIGN};
use crate::reals::{half_even_is_near, pack_parts, value_parts, whole_is_floor};

verus! {

/// A quotient is rounded to the nearest integer, and from halfway between two
/// integers to the even one.
pub proof fn ties_go_to_the_even_one(n: nat, d: nat)
    requires
        d >= 1,
    ensures
        -(d as int) <= 2 * (half_even(n, d) * d - n) <= d,
        2 * (half_even(n, d) * d - n) == d ==> half_even(n, d) % 2 == 0,
        2 * (half_even(n, d) * d - n) == -(d as int) ==> half_even(n, d) % 2 == 0,
{
    half_even_is_near(n, d);
    lemma_fundamental_div_mod(n as int, d as int);
    let q = (n / d) as int;
    let r = (n % d) as int;
    assert((q + 1) * d == q * d + d && q * d == d * q) by (nonlinear_arith);
}

/// The infinite numbers are infinite and have their signs, and what is not a
/// number is neither infinite nor finite.
pub proof fn specials_are_told_apart(negative: bool)
    ensures
        infinite(negative).is_infinite(),
        !infinite(negative).is_nan(),
        !infinite(negative).is_finite(),
        infinite(negative).negative() == negative,
        nan().is_nan(),
        !nan().is_infinite(),
        !nan().is_finite(),
{
    assert(SIGN == 2048 * NORMAL);
    let b = infinite(negative).bits;
    if negative {
        assert(b == 4095 * NORMAL);
    } else {
        assert(b == 2047 * NORMAL);
    }
}

/// What is not a number stays so in every operation, and nothing is below or
/// above it.
pub proof fn nan_stays_nan(a: Binary64, b: Binary64)
    requires
        a.is_nan() || b.is_nan(),
    ensures
        a.plus(b).is_nan(),
        a.times(b).is_nan(),
        a.over(b).is_nan(),
        !a.below(b),
        !b.below(a),
{
    specials_are_told_apart(true);
}

/// Dividing by zero gives an infinite number with the sign of the quotient,
/// unless zero is divided: then there is no result. Dividing by an infinite
/// number gives zero, unless an infinite number is divided.
pub proof fn division_at_the_edges(a: Binary64, b: Binary64)
    requires
        !a.is_nan(),
        !b.is_nan(),
    ensures
        b.is_zero() && !a.is_zero() ==> a.over(b) == infinite(a.negative() != b.negative()),
        b.is_zero() && a.is_zero() ==> a.over(b).is_nan(),
        b.is_infinite() && a.is_finite() ==> a.over(b).is_zero(),
        b.is_infinite() && a.is_infinite() ==> a.over(b).is_nan(),
        b.is_finite() && a.is_infinite() ==> a.over(b) == infinite(a.negative() != b.negative()),
{
    specials_are_told_apart(a.negative() != b.negative());
    pack_parts(a.negative() != b.negative(), 0, -1074);
}

/// Infinite numbers of one sign add up, and those of different signs have no
/// sum. A finite number changes nothing.
pub proof fn infinite_sums(a: Binary64, b: Binary64)
    requires
        a.is_infinite(),
        !b.is_nan(),
    ensures
        b.is_finite() ==> a.plus(b) == infinite(a.negative()) && b.plus(a) == infinite(
            a.negative(),
        ),
        b.is_infinite() && a.negative() == b.negative() ==> a.plus(b) == infinite(a.negative()),
        b.is_infinite() && a.negative() != b.negative() ==> a.plus(b).is_nan(),
        b.is_zero() ==> a.times(b).is_nan() && b.times(a).is_nan(),
        !b.is_zero() ==> a.times(b) == infinite(a.negative() != b.negative()),
{
    specials_are_told_apart(true);
}

/// Every finite number lies between the two infinite ones.
pub proof fn infinite_numbers_bound_all(a: Binary64)
    requires
        a.is_finite(),
    ensures
        a.below(infinite(false)),
        infinite(true).below(a),
        infinite(true).below(infinite(false)),
        !infinite(false).below(a),
        !a.below(infinite(true)),
        !infinite(true).below(infinite(true)),
        !infinite(false).below(infinite(false)),
{
    specials_are_told_apart(true);
    specials_are_told_apart(false);
}

/// As an integer within bounds, what is not a number is 0, and an infinite
/// number is the bound on its side.
pub proof fn specials_as_integers(b: Binary64, low: int, high: int)
    ensures
        b.is_nan() ==> b.to_integer(low, high) == 0,
        b.is_infinite() && b.negative() ==> b.to_integer(low, high) == low,
        b.is_infinite() && !b.negative() ==> b.to_integer(low, high) == high,
        b.is_finite() && low <= b.rounded() <= high ==> b.to_integer(low, high) == b.rounded(),
        b.is_finite() && b.rounded() < low <= high ==> b.to_integer(low, high) == low,
        b.is_finite() && low <= high < b.rounded() ==> b.to_integer(low, high) == high,
{
}

/// The integral part of a number is the greatest integer that is not above it.
/// It is 0 below 1, for negative numbers too, and for what is not a number.
pub proof fn integral_part_is_the_floor(b: Binary64)
    ensures
        b.is_nan() || b.negative() ==> b.whole() == 0,
        b.is_infinite() && !b.negative() ==> b.whole() == u64::MAX,
        b.is_finite() && !b.negative() && b.value() < 18446744073709551615real ==> {
            &&& b.whole() as real <= b.value()
            &&& b.value() < b.whole() as real + 1real
        },
{
    if b.is_finite() && !b.negative() {
        value_parts(b);
        crate::reals::p2_positive(b.exp());
        let m = b.mant() as real;
        let z = crate::reals::p2(b.exp());
        assert(m * z >= 0real) by (nonlinear_arith)
            requires
                m >= 0real,
                z > 0real,
        ;
        whole_is_floor(b);
        let k = b.whole_magnitude();
        if b.value() < 18446744073709551615real {
            assert((k as real) < 18446744073709551615real);
            assert(k < 18446744073709551615int);
        }
    }
}

} // verus!
