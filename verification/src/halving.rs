//! The search by halving that a squeezed picture is computed with.

use vstd::prelude::*;

use crate::accuracy::{source_is_near, step};
use crate::binary64::{of_nat, Binary64};
use crate::reals::{
    below_is_less, constants_are_exact, is_exactly, near_within, p2, p2_grows, p2_step,
    quotient_is_near, real_abs, sum_is_near, unit_is_power,
};
use crate::remap::{search, source, TWO};

verus! {

/// A width divided by 2 to the power `k`.
#[verifier::opaque]
pub open spec fn share(w: real, k: int) -> real {
    w * p2(-k)
}

/// One more halving.
proof fn share_halves(w: real, k: int)
    ensures
        share(w, k + 1) == share(w, k) / 2real,
{
    reveal(share);
    p2_step(-k - 1);
    let p = p2(-k - 1);
    assert(w * (2real * p) == 2real * (w * p)) by (nonlinear_arith);
}

/// The shares that matter here.
pub proof fn shares(w: real)
    requires
        w > 0real,
    ensures
        share(w, 0) == w,
        share(w, 52) == w * step(),
        share(w, 52) > 0real,
        share(w, 48) == 16real * share(w, 52),
{
    reveal(share);
    assert(w * 1real == w) by (nonlinear_arith);
    unit_is_power();
    p2_step(-53);
    p2_step(-52);
    p2_step(-51);
    p2_step(-50);
    p2_step(-49);
    let p = p2(-52);
    let u = step();
    assert(p == u);
    assert(w * (16real * p) == 16real * (w * p)) by (nonlinear_arith);
    assert(w * p > 0real) by (nonlinear_arith)
        requires
            w > 0real,
            p > 0real,
    ;
}

/// The fewer halvings, the greater the share.
proof fn share_shrinks(w: real, k: int, n: int)
    requires
        w > 0real,
        k <= n,
    ensures
        share(w, k) >= share(w, n),
{
    reveal(share);
    p2_grows(-n, -k);
    let p = p2(-k);
    let q = p2(-n);
    assert(w * p >= w * q) by (nonlinear_arith)
        requires
            w > 0real,
            p >= q,
    ;
}

/// The middle of an interval.
pub open spec fn middle(lo: Binary64, hi: Binary64) -> Binary64 {
    lo.plus(hi).over(Binary64 { bits: TWO })
}

/// The computed middle of an interval is close to the middle.
proof fn middle_is_near(lo: Binary64, hi: Binary64, w: real)
    requires
        lo.is_finite(),
        hi.is_finite(),
        0real <= lo.value() <= w,
        0real <= hi.value() <= w,
        1real <= w <= 4294967295real,
    ensures
        middle(lo, hi).is_finite(),
        real_abs(middle(lo, hi).value() - (lo.value() + hi.value()) / 2real) <= 3real * share(
            w,
            52,
        ),
{
    let two = Binary64 { bits: TWO };
    shares(w);
    share_shrinks(w, 0, 52);
    assert(p2(900) >= 1152921504606846976real) by {
        unit_is_power();
    }
    assert(is_exactly(TWO, 2real)) by {
        constants_are_exact();
    }
    sum_is_near(lo, hi);
    let sum = lo.plus(hi);
    near_within(sum, lo.value() + hi.value(), 2real * w);
    let u = step();
    assert((2real * w) * u == 2real * (w * u)) by (nonlinear_arith);
    quotient_is_near(sum, two, sum.value() / 2real);
    near_within(middle(lo, hi), sum.value() / 2real, 2real * w);
}

/// An interval of the search, after `k` halvings of the whole width.
pub open spec fn narrowed(lo: Binary64, hi: Binary64, w: real, k: int) -> bool {
    &&& lo.is_finite()
    &&& hi.is_finite()
    &&& 0real <= lo.value()
    &&& hi.value() <= w
    &&& real_abs(hi.value() - lo.value() - share(w, k)) <= 6real * share(w, 52)
}

/// The middle of an interval of the search lies in it, and parts it into two
/// intervals of the search.
pub proof fn middle_parts(lo: Binary64, hi: Binary64, w: real, k: int)
    requires
        narrowed(lo, hi, w, k),
        0 <= k <= 48,
        1real <= w <= 4294967295real,
    ensures
        lo.value() <= hi.value(),
        middle(lo, hi).is_finite(),
        lo.value() <= middle(lo, hi).value() <= hi.value(),
        narrowed(lo, middle(lo, hi), w, k + 1),
        narrowed(middle(lo, hi), hi, w, k + 1),
{
    shares(w);
    share_shrinks(w, k, 48);
    share_halves(w, k);
    middle_is_near(lo, hi, w);
}

/// What the search comes to: an interval within the one that it started with,
/// whose lower end is below the target and whose upper end is not, unless they
/// are the ends that it started with.
pub proof fn search_narrows(
    lo: Binary64,
    hi: Binary64,
    target: Binary64,
    in_width: nat,
    out_width: nat,
    n: nat,
)
    requires
        n <= 48,
        narrowed(lo, hi, in_width as real, 48 - n),
        1 <= in_width <= u32::MAX,
    ensures
        ({
            let in_w = of_nat(in_width);
            let out_w = of_nat(out_width);
            let (l, h) = search(lo, hi, target, in_w, out_w, n);
            &&& narrowed(l, h, in_width as real, 48)
            &&& lo.value() <= l.value()
            &&& h.value() <= hi.value()
            &&& l == lo || source(l, in_w, out_w).below(target)
            &&& h == hi || !source(h, in_w, out_w).below(target)
        }),
    decreases n,
{
    if n > 0 {
        let in_w = of_nat(in_width);
        let out_w = of_nat(out_width);
        let mid = middle(lo, hi);
        middle_parts(lo, hi, in_width as real, 48 - n);
        if source(mid, in_w, out_w).below(target) {
            search_narrows(mid, hi, target, in_width, out_width, (n - 1) as nat);
        } else {
            search_narrows(lo, mid, target, in_width, out_width, (n - 1) as nat);
        }
    }
}

/// Of two searches, the one for the greater target ends in the same interval or
/// in one farther to the right.
pub proof fn searches_in_order(
    lo: Binary64,
    hi: Binary64,
    s: Binary64,
    t: Binary64,
    in_width: nat,
    out_width: nat,
    n: nat,
)
    requires
        n <= 48,
        narrowed(lo, hi, in_width as real, 48 - n),
        1 <= in_width <= u32::MAX,
        out_width <= u32::MAX,
        s.is_finite(),
        t.is_finite(),
        s.value() <= t.value(),
    ensures
        ({
            let in_w = of_nat(in_width);
            let out_w = of_nat(out_width);
            let a = search(lo, hi, s, in_w, out_w, n);
            let b = search(lo, hi, t, in_w, out_w, n);
            a == b || a.1.value() <= b.0.value()
        }),
    decreases n,
{
    if n > 0 {
        let in_w = of_nat(in_width);
        let out_w = of_nat(out_width);
        let mid = middle(lo, hi);
        middle_parts(lo, hi, in_width as real, 48 - n);
        source_is_near(mid, in_width, out_width);
        let v = source(mid, in_w, out_w);
        below_is_less(v, s);
        below_is_less(v, t);
        let m = (n - 1) as nat;
        if v.below(s) {
            searches_in_order(mid, hi, s, t, in_width, out_width, m);
        } else if v.below(t) {
            search_narrows(lo, mid, s, in_width, out_width, m);
            search_narrows(mid, hi, t, in_width, out_width, m);
        } else {
            searches_in_order(lo, mid, s, t, in_width, out_width, m);
        }
    }
}

} // verus!
