//! Laws of progress: what the numbers of a progress line are in exact numbers.
//!
//! Progress is computed in double precision. The laws bound how far that is
//! from the exact shares and times.

use vstd::prelude::*;
use vstd::string::*;

use crate::binary64::Binary64;
use crate::probe::degrees;
use crate::progress::{
    at_least_zero, clock_of, percentage, seconds_done, time_left, HUNDRED, MILLION,
};
use crate::reals::{
    below_is_less, constants_are_exact, difference_is_near, is_exactly, near_within, p2, p2_step,
    product_is_near, quotient_is_near, real_abs, rounded_is_near, unit_is_power, value_parts,
};

verus! {

proof fn hundred_and_million_are_exact()
    ensures
        is_exactly(HUNDRED, 100real),
        is_exactly(MILLION, 1000000real),
{
    unit_is_power();
    p2_step(-53);
    p2_step(-52);
    p2_step(-51);
    p2_step(-50);
    p2_step(-49);
    p2_step(-48);
    p2_step(-47);
    p2_step(-46);
    p2_step(-45);
    p2_step(-44);
    p2_step(-43);
    p2_step(-42);
    p2_step(-41);
    p2_step(-40);
    p2_step(-39);
    p2_step(-38);
    p2_step(-37);
    p2_step(-36);
    p2_step(-35);
    p2_step(-34);
    let hundred = Binary64 { bits: HUNDRED };
    assert(hundred.field() == 1029 && hundred.fraction() == 0x9_0000_0000_0000);
    value_parts(hundred);
    let m = hundred.mant() as real;
    let z = p2(-46);
    assert(m * z == 100real) by (nonlinear_arith)
        requires
            m == 7036874417766400real,
            z == 1real / 70368744177664real,
    ;
    let million = Binary64 { bits: MILLION };
    assert(million.field() == 1042 && million.fraction() == 0xe_8480_0000_0000);
    value_parts(million);
    let k = million.mant() as real;
    let y = p2(-33);
    assert(k * y == 1000000real) by (nonlinear_arith)
        requires
            k == 8589934592000000real,
            y == 1real / 8589934592real,
    ;
}

/// A million microseconds are a second: a position of up to some thirty years
/// comes out right to a millisecond.
pub proof fn microseconds_become_seconds(time_us: Binary64, exact: real)
    requires
        time_us.is_finite(),
        exact * 1000000real == time_us.value(),
        real_abs(exact) <= 1000000000real,
    ensures
        seconds_done(time_us).is_finite(),
        real_abs(seconds_done(time_us).value() - exact) <= 1real / 1000real,
{
    unit_is_power();
    hundred_and_million_are_exact();
    assert(is_exactly(MILLION, 1000000real));
    quotient_is_near(time_us, Binary64 { bits: MILLION }, exact);
    near_within(seconds_done(time_us), exact, 1000000000real);
}

/// The percentage is the share of the video that is done, in hundredths, right
/// to a thousandth of a percent; beyond the end of the video it is 100. Where
/// the duration is not above 0 there is none.
pub proof fn percentage_is_the_share_done(done: Binary64, duration: Binary64, share: real)
    requires
        done.is_finite(),
        duration.is_finite(),
        share * duration.value() == done.value(),
        0real <= share <= 1000000real,
    ensures
        duration.value() <= 0real ==> percentage(done, duration) is None,
        duration.value() > 0real ==> percentage(done, duration) is Some,
        duration.value() > 0real && share <= 1real ==> {
            &&& percentage(done, duration)->0.is_finite()
            &&& real_abs(percentage(done, duration)->0.value() - 100real * share) <= 1real
                / 1000real
        },
        duration.value() > 0real && share >= 1real ==> {
            &&& percentage(done, duration)->0.is_finite()
            &&& real_abs(percentage(done, duration)->0.value() - 100real) <= 1real / 1000real
        },
{
    unit_is_power();
    hundred_and_million_are_exact();
    assert(is_exactly(HUNDRED, 100real));
    constants_are_exact();
    assert(is_exactly(0, 0real));
    let hundred = Binary64 { bits: HUNDRED };
    below_is_less(Binary64 { bits: 0 }, duration);
    if duration.value() > 0real {
        let q = done.over(duration);
        quotient_is_near(done, duration, share);
        near_within(q, share, 1000000real);
        let product = q.value() * hundred.value();
        assert(product == 100real * q.value()) by (nonlinear_arith)
            requires
                product == q.value() * hundred.value(),
                hundred.value() == 100real,
        ;
        product_is_near(q, hundred);
        let p = q.times(hundred);
        near_within(p, product, 200000000real);
        below_is_less(hundred, p);
    }
}

/// The time left is what is left of the video by the speed, right to a
/// thousandth of a second; beyond the end of the video none is left.
pub proof fn time_left_is_the_rest_by_the_speed(
    done: Binary64,
    duration: Binary64,
    speed: Binary64,
    rest: real,
)
    requires
        done.is_finite(),
        duration.is_finite(),
        speed.is_finite(),
        duration.value() > 0real,
        1real / 1000real <= speed.value() <= 1000000000real,
        rest * speed.value() == duration.value() - done.value(),
        real_abs(duration.value() - done.value()) <= 1000000000real,
    ensures
        time_left(done, duration, Some(speed)) is Some,
        time_left(done, duration, Some(speed))->0.is_finite(),
        rest >= 0real ==> real_abs(time_left(done, duration, Some(speed))->0.value() - rest)
            <= 1real / 1000real,
        rest < 0real ==> real_abs(time_left(done, duration, Some(speed))->0.value()) <= 1real
            / 1000real,
{
    unit_is_power();
    constants_are_exact();
    assert(is_exactly(0, 0real));
    let zero = Binary64 { bits: 0 };
    below_is_less(zero, duration);
    below_is_less(zero, speed);
    let d = duration.value() - done.value();
    let s = speed.value();
    let r = duration.minus(done);
    difference_is_near(duration, done);
    near_within(r, d, 1000000000real);
    below_is_less(r, zero);
    let a = at_least_zero(r);
    let v = a.value();
    let quotient = divided(v, s);
    assert(real_abs(quotient) <= 1000001000000real) by (nonlinear_arith)
        requires
            quotient * s == v,
            s >= 1real / 1000real,
            0real <= v <= 1000001000real,
    ;
    quotient_is_near(a, speed, quotient);
    near_within(a.over(speed), quotient, 1000001000000real);
    let gap = quotient - rest;
    assert(gap * s == v - d) by (nonlinear_arith)
        requires
            quotient * s == v,
            rest * s == d,
            gap == quotient - rest,
    ;
    assert(rest >= 0real ==> d >= 0real) by (nonlinear_arith)
        requires
            rest * s == d,
            s > 0real,
    ;
    assert(rest < 0real ==> d < 0real) by (nonlinear_arith)
        requires
            rest * s == d,
            s > 0real,
    ;
    if rest >= 0real {
        let g = real_abs(v - d);
        assert(g <= 1real / 4000000real);
        assert(real_abs(gap) <= 1real / 2000real) by (nonlinear_arith)
            requires
                gap * s == v - d,
                s >= 1real / 1000real,
                -1real / 4000000real <= v - d <= 1real / 4000000real,
        ;
    } else {
        assert(v <= 1real / 4000000real);
        assert(0real <= quotient <= 1real / 2000real) by (nonlinear_arith)
            requires
                quotient * s == v,
                s >= 1real / 1000real,
                0real <= v <= 1real / 4000000real,
        ;
    }
}

proof fn divided(v: real, s: real) -> (q: real)
    requires
        s > 0real,
    ensures
        q * s == v,
{
    let q = v / s;
    assert(q * s == v) by (nonlinear_arith)
        requires
            q == v / s,
            s > 0real,
    ;
    q
}

/// A number of seconds within half a second of `60 * minutes + seconds` is
/// shown as those minutes and seconds.
pub proof fn clock_shows_the_nearest_second(secs: Binary64, minutes: nat, seconds: nat)
    requires
        secs.is_finite(),
        seconds < 60,
        60 * minutes + seconds <= 1_000_000_000,
        2real * real_abs(secs.value() - ((60 * minutes + seconds) as real)) < 1real,
    ensures
        clock_of(secs) == crate::decimal::numeral(minutes) + ":"@ + crate::decimal::two_digits(
            seconds,
        ),
{
    rounded_is_near(secs);
    let n: int = (60 * minutes + seconds) as int;
    let k: int = secs.rounded();
    nearest_is_unique(secs.value(), k, n);
    assert(n / 60 == minutes && n % 60 == seconds);
}

/// Only one integer lies within less than one half of a number.
proof fn nearest_is_unique(v: real, k: int, n: int)
    requires
        2real * real_abs(v - (n as real)) < 1real,
        2real * (k as real) - 1real <= 2real * v <= 2real * (k as real) + 1real,
    ensures
        k == n,
{
    let d: int = k - n;
    assert((k - n) as real == (k as real) - (n as real));
    let e = d as real;
    assert(-1real < e && e < 1real);
    assert(-1 < d < 1);
}

/// A rotation within half a degree of `k` degrees turns the picture by `k`
/// degrees, counted without full turns.
pub proof fn rotation_is_the_nearest_degree(r: Binary64, k: int)
    requires
        r.is_finite(),
        -1_000_000_000 <= k <= 1_000_000_000,
        2real * real_abs(r.value() - (k as real)) < 1real,
    ensures
        degrees(Some(r)) == k % 360,
        0 <= degrees(Some(r)) < 360,
{
    rounded_is_near(r);
    nearest_is_unique(r.value(), r.rounded(), k);
}

} // verus!
