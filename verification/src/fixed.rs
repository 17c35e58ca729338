//! Numbers as decimal fractions with a fixed number of places.

use vstd::arithmetic::div_mod::*;
use vstd::arithmetic::power2::*;
use vstd::prelude::*;
use vstd::string::*;

use crate::binary64::{half_even, limits_are_powers, power, Binary64};
use crate::decimal::{decimal, decimal_two, digit_text, numeral, two_digits};
use crate::reals::{
    half_even_is_near, p2, p2_adds, p2_is_pow2, p2_positive, product_is_real, real_abs, value_parts,
};

verus! {

/// A number of hundredths, or of tenths, as a decimal fraction.
pub open spec fn point(n: nat, hundredths: bool) -> Seq<char> {
    if hundredths {
        numeral(n / 100) + "."@ + two_digits(n % 100)
    } else {
        numeral(n / 10) + "."@ + numeral(n % 10)
    }
}

/// How many tenths or hundredths one is.
pub open spec fn scale(hundredths: bool) -> nat {
    if hundredths {
        100
    } else {
        10
    }
}

/// The number of tenths or hundredths nearest to the magnitude of a finite
/// number; of two equally near, the even one.
pub open spec fn parts(b: Binary64, hundredths: bool) -> nat {
    if b.exp() >= 0 {
        b.mant() * pow2(b.exp() as nat) * scale(hundredths)
    } else {
        half_even(b.mant() * scale(hundredths), pow2((-b.exp()) as nat))
    }
}

/// A number as a decimal fraction with one place, or with two.
pub open spec fn fixed(b: Binary64, hundredths: bool) -> Seq<char> {
    if b.is_nan() {
        "NaN"@
    } else {
        let sign = if b.negative() {
            "-"@
        } else {
            ""@
        };
        if b.is_infinite() {
            sign + "inf"@
        } else {
            sign + point(parts(b, hundredths), hundredths)
        }
    }
}

// ---------------------------------------------------------------------------
// Whole numbers of any size
// ---------------------------------------------------------------------------

/// The number that decimal digits write, the greatest place first.
spec fn value(v: Seq<u8>) -> nat
    decreases v.len(),
{
    if v.len() == 0 {
        0
    } else {
        value(v.drop_last()) * 10 + v.last() as nat
    }
}

/// Decimal digits without a leading zero.
spec fn proper(v: Seq<u8>) -> bool {
    &&& forall|i: int| 0 <= i < v.len() ==> #[trigger] v[i] < 10
    &&& v.len() > 0 ==> v[0] > 0
}

proof fn proper_is_positive(v: Seq<u8>)
    requires
        proper(v),
        v.len() > 0,
    ensures
        value(v) > 0,
    decreases v.len(),
{
    if v.len() == 1 {
        assert(v.drop_last().len() == 0);
    } else {
        assert(proper(v.drop_last()));
        proper_is_positive(v.drop_last());
    }
}

/// The digits of twice the number that the first `n` digits write, plus
/// `carry`.
fn twice(v: &Vec<u8>, n: usize, carry: u8) -> (r: Vec<u8>)
    requires
        n <= v@.len(),
        proper(v@),
        carry <= 1,
    ensures
        proper(r@),
        value(r@) == 2 * value(v@.take(n as int)) + carry,
    decreases n,
{
    if n == 0 {
        let mut r: Vec<u8> = Vec::new();
        if carry > 0 {
            r.push(carry);
            assert(r@.drop_last() =~= Seq::<u8>::empty());
            assert(value(r@.drop_last()) == 0);
        }
        assert(value(v@.take(0)) == 0);
        return r;
    }
    let ghost head = v@.take(n as int);
    assert(head.drop_last() =~= v@.take(n - 1));
    assert(head.last() == v@[n - 1]);
    let t: u8 = 2 * v[n - 1] + carry;
    let mut r: Vec<u8> = twice(v, n - 1, t / 10);
    let ghost before = r@;
    proof {
        if before.len() == 0 {
            if n > 1 {
                assert(proper(v@.take(n - 1)));
                proper_is_positive(v@.take(n - 1));
                assert(value(before) == 0);
            }
            assert(t > 0);
        }
    }
    r.push(t % 10);
    assert(r@.drop_last() =~= before);
    r
}

/// The digits of a number of 64 bits.
fn digits_of(n: u64) -> (r: Vec<u8>)
    ensures
        proper(r@),
        value(r@) == n,
    decreases n,
{
    if n == 0 {
        return Vec::new();
    }
    let mut r: Vec<u8> = digits_of(n / 10);
    let ghost before = r@;
    r.push((n % 10) as u8);
    assert(r@.drop_last() =~= before);
    r
}

/// The numeral that decimal digits write.
fn text_of(v: &Vec<u8>) -> (r: String)
    requires
        proper(v@),
        v@.len() > 0,
    ensures
        r@ == numeral(value(v@)),
{
    let mut r: String = digit_text(v[0] as u64).to_owned();
    let mut i: usize = 1;
    proof {
        assert(v@.take(1).drop_last() =~= Seq::<u8>::empty());
        assert(value(v@.take(1).drop_last()) == 0);
        assert(value(v@.take(1)) == v@[0]);
    }
    while i < v.len()
        invariant
            1 <= i <= v@.len(),
            proper(v@),
            r@ == numeral(value(v@.take(i as int))),
        decreases v@.len() - i,
    {
        r.append(digit_text(v[i] as u64));
        proof {
            let head = v@.take(i + 1);
            assert(head.drop_last() =~= v@.take(i as int));
            assert(proper(v@.take(i as int)));
            proper_is_positive(v@.take(i as int));
            let n = value(head);
            assert(n / 10 == value(v@.take(i as int)));
            assert(n % 10 == v@[i as int]);
            assert(r@ =~= numeral(n));
        }
        i += 1;
    }
    assert(v@.take(i as int) =~= v@);
    r
}

/// The numeral of `m` times 2 to the power `e`.
fn large_numeral(m: u64, e: u32) -> (r: String)
    requires
        m > 0,
    ensures
        r@ == numeral(m as nat * pow2(e as nat)),
{
    let mut v: Vec<u8> = digits_of(m);
    let mut k: u32 = 0;
    proof {
        lemma2_to64();
        assert(m as nat * pow2(0) == m) by (nonlinear_arith)
            requires
                pow2(0) == 1,
        ;
    }
    while k < e
        invariant
            m > 0,
            k <= e,
            proper(v@),
            value(v@) == m as nat * pow2(k as nat),
        decreases e - k,
    {
        proof {
            lemma_pow2_unfold((k + 1) as nat);
            let p = pow2(k as nat);
            assert(m as nat * (2 * p) == 2 * (m as nat * p)) by (nonlinear_arith);
            assert(v@.take(v@.len() as int) =~= v@);
        }
        v = twice(&v, v.len(), 0);
        k += 1;
    }
    proof {
        lemma_pow2_pos(e as nat);
        assert(m as nat * pow2(e as nat) > 0) by (nonlinear_arith)
            requires
                m > 0,
                pow2(e as nat) > 0,
        ;
    }
    text_of(&v)
}

// ---------------------------------------------------------------------------
// Fractions
// ---------------------------------------------------------------------------

fn point_text(n: u64, hundredths: bool) -> (r: String)
    ensures
        r@ == point(n as nat, hundredths),
{
    if hundredths {
        let mut r: String = decimal(n / 100);
        r.append(".");
        r.append(decimal_two(n % 100).as_str());
        r
    } else {
        let mut r: String = decimal(n / 10);
        r.append(".");
        r.append(decimal(n % 10).as_str());
        r
    }
}

/// A finite number without its sign.
fn magnitude_text(b: Binary64, hundredths: bool) -> (r: String)
    requires
        b.is_finite(),
    ensures
        r@ == point(parts(b, hundredths), hundredths),
{
    let m: u64 = b.significand();
    let e: i32 = b.exponent();
    let by: u64 = if hundredths {
        100
    } else {
        10
    };
    if m == 0 {
        proof {
            if e >= 0 {
                let p = pow2(e as nat);
                assert(0nat * p * scale(hundredths) == 0) by (nonlinear_arith);
            } else {
                let p = pow2((-e) as nat);
                lemma_pow2_pos((-e) as nat);
                assert(0nat * scale(hundredths) == 0) by (nonlinear_arith);
                assert(0nat / p == 0 && 0nat % p == 0) by (nonlinear_arith)
                    requires
                        p > 0,
                ;
            }
        }
        return point_text(0, hundredths);
    }
    if e >= 0 {
        let mut r: String = large_numeral(m, e as u32);
        r.append(".");
        let zero: String = if hundredths {
            decimal_two(0)
        } else {
            decimal(0)
        };
        r.append(zero.as_str());
        proof {
            let whole = m as nat * pow2(e as nat);
            if hundredths {
                assert((whole * 100) / 100 == whole && (whole * 100) % 100 == 0);
            } else {
                assert((whole * 10) / 10 == whole && (whole * 10) % 10 == 0);
            }
        }
        r
    } else {
        proof {
            limits_are_powers();
            lemma_pow2_pos((-e) as nat);
        }
        let n: u64 = m * by;
        let s: u32 = (-e) as u32;
        if s >= 64 {
            proof {
                lemma2_to64_rest();
                if s > 64 {
                    lemma_pow2_strictly_increases(64, s as nat);
                }
                lemma_basic_div(n as int, pow2(s as nat) as int);
                lemma_small_mod(n as nat, pow2(s as nat));
            }
            point_text(0, hundredths)
        } else {
            let d: u128 = power(s);
            let q: u128 = n as u128 / d;
            let r: u128 = n as u128 % d;
            proof {
                lemma_div_nonincreasing(n as int, d as int);
                lemma2_to64_rest();
                lemma_pow2_strictly_increases(s as nat, 64);
                lemma_fundamental_div_mod(n as int, d as int);
            }
            if 2 * r > d || (2 * r == d && q % 2 == 1) {
                point_text(q as u64 + 1, hundredths)
            } else {
                point_text(q as u64, hundredths)
            }
        }
    }
}

/// A number as a decimal fraction with one place, or with two.
pub fn fixed_text(b: Binary64, hundredths: bool) -> (r: String)
    ensures
        r@ == fixed(b, hundredths),
{
    if b.nan() {
        return "NaN".to_owned();
    }
    let mut r: String = if b.is_negative() {
        "-".to_owned()
    } else {
        "".to_owned()
    };
    if b.infinity() {
        r.append("inf");
    } else {
        r.append(magnitude_text(b, hundredths).as_str());
    }
    r
}

// ---------------------------------------------------------------------------
// Laws
// ---------------------------------------------------------------------------

/// A decimal fraction is a whole number, a point, and two digits for
/// hundredths or one for tenths.
pub proof fn fractions_have_their_places(whole: nat, part: nat)
    ensures
        part < 100 ==> point(100 * whole + part, true) == numeral(whole) + "."@ + two_digits(part),
        part < 10 ==> point(10 * whole + part, false) == numeral(whole) + "."@ + numeral(part),
{
    if part < 100 {
        assert((100 * whole + part) / 100 == whole && (100 * whole + part) % 100 == part);
    }
    if part < 10 {
        assert((10 * whole + part) / 10 == whole && (10 * whole + part) % 10 == part);
    }
}

/// The fraction that is shown lies within half a place of the number, and a
/// sign stands before it if the number has one.
pub proof fn fractions_are_the_nearest(b: Binary64, hundredths: bool) -> (n: nat)
    requires
        b.is_finite(),
    ensures
        b.negative() ==> fixed(b, hundredths) == "-"@ + point(n, hundredths),
        !b.negative() ==> fixed(b, hundredths) == point(n, hundredths),
        hundredths ==> -1real <= 2real * ((n as real) - 100real * real_abs(b.value())) <= 1real,
        !hundredths ==> -1real <= 2real * ((n as real) - 10real * real_abs(b.value())) <= 1real,
{
    reveal_strlit("");
    let n = parts(b, hundredths);
    assert(""@ + point(n, hundredths) =~= point(n, hundredths));
    value_parts(b);
    p2_positive(b.exp());
    let m = b.mant() as real;
    let z = p2(b.exp());
    let v = m * z;
    assert(v >= 0real) by (nonlinear_arith)
        requires
            v == m * z,
            m >= 0real,
            z > 0real,
    ;
    assert(real_abs(b.value()) == v);
    let k = scale(hundredths);
    let kr = k as real;
    if b.exp() >= 0 {
        let p = pow2(b.exp() as nat);
        p2_is_pow2(b.exp() as nat);
        product_is_real(b.mant() as int, p as int);
        product_is_real((b.mant() * p) as int, k as int);
        assert(n as real == v * kr);
    } else {
        let d = pow2((-b.exp()) as nat);
        lemma_pow2_pos((-b.exp()) as nat);
        p2_is_pow2((-b.exp()) as nat);
        p2_adds(b.exp(), -b.exp());
        let dr = d as real;
        let top = b.mant() * k;
        product_is_real(b.mant() as int, k as int);
        half_even_is_near(top, d);
        product_is_real(n as int, d as int);
        let nr = n as real;
        let x = v * kr;
        assert(x * dr == m * kr) by (nonlinear_arith)
            requires
                x == (m * z) * kr,
                z * dr == 1real,
        ;
        let gap = 2real * (nr - x);
        assert(gap * dr == 2real * (nr * dr - m * kr)) by (nonlinear_arith)
            requires
                gap == 2real * (nr - x),
                x * dr == m * kr,
        ;
        assert(-dr <= gap * dr <= dr);
        assert(-1real <= gap <= 1real) by (nonlinear_arith)
            requires
                -dr <= gap * dr <= dr,
                dr > 0real,
        ;
    }
    assert(v * kr == kr * v) by (nonlinear_arith);
    n
}

/// What is not a finite number is shown in words.
pub proof fn other_numbers_are_shown_in_words(b: Binary64, hundredths: bool)
    ensures
        b.is_nan() ==> fixed(b, hundredths) == "NaN"@,
        b.is_infinite() && b.negative() ==> fixed(b, hundredths) == "-inf"@,
        b.is_infinite() && !b.negative() ==> fixed(b, hundredths) == "inf"@,
{
    reveal_strlit("");
    reveal_strlit("-");
    reveal_strlit("inf");
    reveal_strlit("-inf");
    assert("-"@ + "inf"@ =~= "-inf"@);
    assert(""@ + "inf"@ =~= "inf"@);
}

} // verus!
