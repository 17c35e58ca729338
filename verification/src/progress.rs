//! How far an encoding has come.

use vstd::arithmetic::power2::*;
use vstd::prelude::*;
use vstd::string::*;

use crate::binary64::{aligned, common, Binary64, NORMAL, SIGN};
use crate::decimal::{decimal, decimal_two, numeral, two_digits, two_digits_write_their_number};
use crate::fixed::{fixed, fixed_text};
use crate::reals::{nearest_has_sign, pack_parts};
use crate::text::{
    after_prefix, cat, is_space, strip_prefix, trim, trim_end, trim_start, trimmed,
    without_trailing, Separator,
};

verus! {

/// The bits of one million.
pub const MILLION: u64 = 0x412e_8480_0000_0000;

/// The bits of one hundred.
pub const HUNDRED: u64 = 0x4059_0000_0000_0000;

// ---------------------------------------------------------------------------
// Reports
// ---------------------------------------------------------------------------

/// What a line of ffmpeg's progress output reports.
#[derive(Debug)]
pub enum Report<'a> {
    /// The speed of the encoding: the text of a number.
    Speed(&'a str),
    /// The position in the output in microseconds: the text of a number.
    Time(&'a str),
    /// Something else.
    Other,
}

/// What a report stands for.
pub enum ReportView {
    Speed(Seq<char>),
    Time(Seq<char>),
    Other,
}

impl<'a> View for Report<'a> {
    type V = ReportView;

    open spec fn view(&self) -> ReportView {
        match *self {
            Report::Speed(s) => ReportView::Speed(s@),
            Report::Time(s) => ReportView::Time(s@),
            Report::Other => ReportView::Other,
        }
    }
}

/// What a line of ffmpeg's progress output reports.
pub open spec fn report(line: Seq<char>) -> ReportView {
    match strip_prefix(line, "speed="@) {
        Some(rest) => ReportView::Speed(trim_end(trim(rest), Separator::Char('x'))),
        None => match strip_prefix(line, "out_time_ms="@) {
            Some(rest) => ReportView::Time(rest),
            None => ReportView::Other,
        },
    }
}

/// What a line of ffmpeg's progress output reports.
pub fn read_report<'a>(line: &'a str) -> (r: Report<'a>)
    ensures
        r@ == report(line@),
{
    if let Some(rest) = after_prefix(line, "speed=") {
        return Report::Speed(without_trailing(trimmed(rest), Separator::Char('x')));
    }
    match after_prefix(line, "out_time_ms=") {
        Some(rest) => Report::Time(rest),
        None => Report::Other,
    }
}

// ---------------------------------------------------------------------------
// Progress
// ---------------------------------------------------------------------------

/// How far an encoding has come.
#[derive(Debug)]
pub struct Progress {
    /// How much of the video is done, in percent, where its length is known.
    pub percent: Option<Binary64>,
    /// How much of the video is done, in seconds.
    pub done_secs: Binary64,
    /// How many seconds of video one second of work yields.
    pub speed: Option<Binary64>,
    /// How many seconds of work are left, where that can be told.
    pub eta_secs: Option<Binary64>,
}

/// The lesser of two numbers; what is not a number does not count.
pub open spec fn least(a: Binary64, b: Binary64) -> Binary64 {
    if a.is_nan() || b.below(a) {
        b
    } else {
        a
    }
}

/// The number, or 0 where it is below 0 or not a number.
pub open spec fn at_least_zero(a: Binary64) -> Binary64 {
    if a.is_nan() || a.below(Binary64 { bits: 0 }) {
        Binary64 { bits: 0 }
    } else {
        a
    }
}

/// The number is above 0.
pub open spec fn positive(a: Binary64) -> bool {
    Binary64 { bits: 0 }.below(a)
}

/// A position in microseconds, in seconds.
pub open spec fn seconds_done(time_us: Binary64) -> Binary64 {
    time_us.over(Binary64 { bits: MILLION })
}

/// How much of a video is done, in percent.
pub open spec fn percentage(done: Binary64, duration: Binary64) -> Option<Binary64> {
    if positive(duration) {
        let hundred = Binary64 { bits: HUNDRED };
        Some(least(done.over(duration).times(hundred), hundred))
    } else {
        None
    }
}

/// How many seconds of work are left.
pub open spec fn time_left(
    done: Binary64,
    duration: Binary64,
    speed: Option<Binary64>,
) -> Option<Binary64> {
    match speed {
        Some(s) => if positive(duration) && positive(s) {
            Some(at_least_zero(duration.minus(done)).over(s))
        } else {
            None
        },
        None => None,
    }
}

/// What is known while a video is encoded.
pub struct Meter {
    /// The length of the video in seconds; 0 where it is not known.
    pub duration: Binary64,
    /// The speed that was last reported.
    pub speed: Option<Binary64>,
}

impl Meter {
    /// Nothing is reported yet.
    pub fn new(duration: Binary64) -> (r: Meter)
        ensures
            r.duration == duration,
            r.speed is None,
    {
        Meter { duration, speed: None }
    }

    /// A speed is reported; one that is no number makes it unknown.
    pub fn set_speed(&mut self, speed: Option<Binary64>)
        ensures
            final(self).duration == old(self).duration,
            final(self).speed == speed,
    {
        self.speed = speed;
    }

    /// A position in the output is reported, in microseconds.
    pub fn progress(&self, time_us: Binary64) -> (r: Progress)
        ensures
            r.done_secs == seconds_done(time_us),
            r.percent == percentage(r.done_secs, self.duration),
            r.speed == self.speed,
            r.eta_secs == time_left(r.done_secs, self.duration, self.speed),
    {
        let zero: Binary64 = Binary64 { bits: 0 };
        let hundred: Binary64 = Binary64 { bits: HUNDRED };
        let done: Binary64 = time_us.divide(Binary64 { bits: MILLION });
        let mut percent: Option<Binary64> = None;
        let mut eta: Option<Binary64> = None;
        if zero.less(self.duration) {
            let p: Binary64 = done.divide(self.duration).multiply(hundred);
            percent =
            if p.nan() || hundred.less(p) {
                Some(hundred)
            } else {
                Some(p)
            };
            if let Some(s) = self.speed {
                if zero.less(s) {
                    let left: Binary64 = self.duration.subtract(done);
                    let left: Binary64 = if left.nan() || left.less(zero) {
                        zero
                    } else {
                        left
                    };
                    eta = Some(left.divide(s));
                }
            }
        }
        Progress { percent, done_secs: done, speed: self.speed, eta_secs: eta }
    }
}

// ---------------------------------------------------------------------------
// The progress line
// ---------------------------------------------------------------------------

/// The text, with spaces before it up to `width` characters.
pub open spec fn padded(s: Seq<char>, width: nat) -> Seq<char> {
    if s.len() >= width {
        s
    } else {
        Seq::new((width - s.len()) as nat, |i: int| ' ') + s
    }
}

/// A number of seconds in minutes and seconds.
pub open spec fn clock(secs: int) -> Seq<char> {
    numeral((secs / 60) as nat) + ":"@ + two_digits((secs % 60) as nat)
}

/// The nearest number of whole seconds, as minutes and seconds.
pub open spec fn clock_of(secs: Binary64) -> Seq<char> {
    clock(secs.to_integer(0, u64::MAX as int))
}

/// The line that shows how far an encoding has come. It begins with a carriage
/// return, so that it is written over the line before.
pub open spec fn progress_line(p: Progress) -> Seq<char> {
    match p.percent {
        Some(percent) => {
            let head = "\rEncoding progress: "@ + padded(fixed(percent, false), 5) + "%"@;
            match (p.speed, p.eta_secs) {
                (Some(speed), Some(eta)) => head + " (speed "@ + fixed(speed, true) + "x, ETA "@
                    + clock_of(eta) + ")   "@,
                _ => head,
            }
        },
        None => {
            let head = "\rEncoded "@ + clock_of(p.done_secs);
            match p.speed {
                Some(speed) => head + " (speed "@ + fixed(speed, true) + "x)   "@,
                None => head,
            }
        },
    }
}

/// The text, with spaces before it up to `width` characters.
fn pad(s: &str, width: usize) -> (r: String)
    ensures
        r@ == padded(s@, width as nat),
{
    let mut r: String = s.to_owned();
    let mut n: usize = s.unicode_len();
    while n < width
        invariant
            n == r@.len(),
            padded(r@, width as nat) == padded(s@, width as nat),
        decreases width - n,
    {
        let ghost before = r@;
        r = cat(" ", r.as_str());
        proof {
            reveal_strlit(" ");
            assert(padded(r@, width as nat) =~= padded(before, width as nat));
        }
        n += 1;
    }
    r
}

fn clock_text(secs: Binary64) -> (r: String)
    ensures
        r@ == clock_of(secs),
{
    let n: u64 = secs.to_u64(u64::MAX);
    let mut r: String = decimal(n / 60);
    r.append(":");
    r.append(decimal_two(n % 60).as_str());
    r
}

/// The line that shows how far an encoding has come.
pub fn progress_text(p: &Progress) -> (r: String)
    ensures
        r@ == progress_line(*p),
{
    match p.percent {
        Some(percent) => {
            let mut r: String = cat(
                "\rEncoding progress: ",
                pad(fixed_text(percent, false).as_str(), 5).as_str(),
            );
            r.append("%");
            if let Some(speed) = p.speed {
                if let Some(eta) = p.eta_secs {
                    r.append(" (speed ");
                    r.append(fixed_text(speed, true).as_str());
                    r.append("x, ETA ");
                    r.append(clock_text(eta).as_str());
                    r.append(")   ");
                }
            }
            r
        },
        None => {
            let mut r: String = cat("\rEncoded ", clock_text(p.done_secs).as_str());
            if let Some(speed) = p.speed {
                r.append(" (speed ");
                r.append(fixed_text(speed, true).as_str());
                r.append("x)   ");
            }
            r
        },
    }
}

// ---------------------------------------------------------------------------
// Laws
// ---------------------------------------------------------------------------

/// The percentage is a number, and never above one hundred.
pub proof fn never_above_one_hundred(done: Binary64, duration: Binary64)
    ensures
        percentage(done, duration) matches Some(p) ==> !p.is_nan() && !(Binary64 {
            bits: HUNDRED,
        }).below(p),
{
    assert(HUNDRED % 0x10_0000_0000_0000 != 0 && HUNDRED / 0x10_0000_0000_0000 < 2047);
}

/// A time left is told exactly when the length of the video is known and the
/// speed is above 0, and then so is a percentage.
pub proof fn time_left_is_told_with_a_percentage(
    done: Binary64,
    duration: Binary64,
    speed: Option<Binary64>,
)
    ensures
        time_left(done, duration, speed) is Some <==> positive(duration) && (speed matches Some(
            s,
        ) && positive(s)),
        time_left(done, duration, speed) is Some ==> percentage(done, duration) is Some,
{
}

/// A time left is never below 0.
pub proof fn time_left_is_never_below_zero(
    done: Binary64,
    duration: Binary64,
    speed: Option<Binary64>,
)
    ensures
        time_left(done, duration, speed) matches Some(t) ==> !t.below(Binary64 { bits: 0 }),
{
    let zero = Binary64 { bits: 0 };
    assert(zero.field() == 0 && zero.fraction() == 0);
    if time_left(done, duration, speed) is Some {
        let a = at_least_zero(duration.minus(done));
        let s = speed->0;
        let t = a.over(s);
        not_below_zero(a);
        not_below_zero(s);
        above_zero(s);
        if a.is_finite() && s.is_finite() {
            nearest_has_sign(a.negative() != s.negative(), a.mant(), s.mant(), a.exp() - s.exp());
        }
        if a.is_finite() && s.is_infinite() {
            pack_parts(a.negative() != s.negative(), 0, -1074);
        }
        assert(SIGN == 2048 * NORMAL);
        below_zero_is_negative(t);
    }
}

/// A number that is not below 0 has no sign, or it is 0.
proof fn not_below_zero(a: Binary64)
    ensures
        !a.below(Binary64 { bits: 0 }) && !a.is_nan() ==> !a.negative() || a.is_zero(),
{
    let zero = Binary64 { bits: 0 };
    assert(zero.field() == 0 && zero.fraction() == 0);
    if a.is_finite() && a.negative() && a.mant() > 0 {
        signed_power(a, common(a, zero));
    }
}

/// A number above 0 has no sign, and is not 0.
proof fn above_zero(a: Binary64)
    ensures
        positive(a) ==> !a.is_nan() && !a.negative() && !a.is_zero(),
{
    let zero = Binary64 { bits: 0 };
    assert(zero.field() == 0 && zero.fraction() == 0);
    if a.is_finite() {
        signed_power(a, common(zero, a));
        signed_power(zero, common(zero, a));
    }
}

/// A number below 0 has a sign, and is not 0.
proof fn below_zero_is_negative(a: Binary64)
    ensures
        a.below(Binary64 { bits: 0 }) ==> a.negative() && !a.is_zero(),
{
    let zero = Binary64 { bits: 0 };
    assert(zero.field() == 0 && zero.fraction() == 0);
    if a.is_finite() {
        signed_power(a, common(a, zero));
        signed_power(zero, common(a, zero));
    }
}

/// The sign of a significand at a lower exponent.
proof fn signed_power(a: Binary64, e: int)
    ensures
        a.mant() == 0 ==> aligned(a, e) == 0,
        a.mant() > 0 && a.negative() ==> aligned(a, e) < 0,
        a.mant() > 0 && !a.negative() ==> aligned(a, e) > 0,
{
    let k = (a.exp() - e) as nat;
    let m = a.signed_mant();
    let p = pow2(k) as int;
    lemma_pow2_pos(k);
    assert((m == 0 ==> m * p == 0) && (m < 0 ==> m * p < 0) && (m > 0 ==> m * p > 0))
        by (nonlinear_arith)
        requires
            p > 0,
    ;
}

/// A position is all that stands behind `out_time_ms=`. A speed is what stands
/// behind `speed=`, without blanks around it and without the `x` at its end.
/// Any other line reports neither.
pub proof fn reports_are_told_apart(rest: Seq<char>, speed: Seq<char>, line: Seq<char>)
    ensures
        report("out_time_ms="@ + rest) == ReportView::Time(rest),
        speed.len() > 0 && !is_space(speed.first()) && !is_space(speed.last()) && speed.last()
            != 'x' ==> {
            &&& report("speed="@ + speed + "x"@) == ReportView::Speed(speed)
            &&& report("speed="@ + " "@ + speed + "x"@) == ReportView::Speed(speed)
            &&& report("speed="@ + speed) == ReportView::Speed(speed)
        },
        !(line.len() >= 6 && line.take(6) == "speed="@) && !(line.len() >= 12 && line.take(12)
            == "out_time_ms="@) ==> report(line) == ReportView::Other,
{
    reveal_strlit("out_time_ms=");
    reveal_strlit("speed=");
    reveal_strlit("x");
    reveal_strlit(" ");
    let t = "out_time_ms="@ + rest;
    assert(t.subrange(0, 12) =~= "out_time_ms="@);
    assert(t.skip(12) =~= rest);
    assert(t.subrange(0, 6)[0] == 'o' && "speed="@[0] == 's');
    assert(line.len() >= 6 ==> line.subrange(0, 6) =~= line.take(6));
    assert(line.len() >= 12 ==> line.subrange(0, 12) =~= line.take(12));
    if speed.len() > 0 && !is_space(speed.first()) && !is_space(speed.last()) && speed.last()
        != 'x' {
        speed_is_found(speed);
        speed_is_found(speed + "x"@);
        speed_is_found(" "@ + speed + "x"@);
        let full = speed + "x"@;
        assert(full.last() == 'x' && full.first() == speed.first());
        assert(trim_start(full, Separator::Space) == full);
        assert(trim(full) == full);
        assert(full.drop_last() =~= speed);
        let wide = " "@ + speed + "x"@;
        assert(wide.first() == ' ');
        assert(wide.drop_first() =~= full);
        assert(trim_start(wide, Separator::Space) == trim_start(full, Separator::Space));
        assert(trim(wide) == full);
        assert(trim_end(full, Separator::Char('x')) == trim_end(speed, Separator::Char('x')));
        assert("speed="@ + (speed + "x"@) =~= "speed="@ + speed + "x"@);
        assert("speed="@ + (" "@ + speed + "x"@) =~= "speed="@ + " "@ + speed + "x"@);
        assert(trim(speed) == speed);
    }
}

proof fn speed_is_found(rest: Seq<char>)
    ensures
        strip_prefix("speed="@ + rest, "speed="@) == Some(rest),
{
    reveal_strlit("speed=");
    let t = "speed="@ + rest;
    assert(t.subrange(0, 6) =~= "speed="@);
    assert(t.skip(6) =~= rest);
}

/// Sixty seconds make a minute, and the seconds beyond whole minutes take two
/// digits.
pub proof fn sixty_seconds_make_a_minute(minutes: nat, seconds: nat)
    requires
        seconds < 60,
    ensures
        clock((60 * minutes + seconds) as int) == numeral(minutes) + ":"@ + two_digits(seconds),
        clock((60 * minutes + seconds) as int).len() == numeral(minutes).len() + 3,
{
    let n: int = (60 * minutes + seconds) as int;
    assert(n / 60 == minutes && n % 60 == seconds);
    two_digits_write_their_number(seconds);
    reveal_strlit(":");
}

/// Blanks fill a text up on the left, and nothing is ever cut off.
pub proof fn blanks_fill_up_on_the_left(s: Seq<char>, width: nat)
    ensures
        padded(s, width).len() == if s.len() < width {
            width
        } else {
            s.len()
        },
        padded(s, width).skip(padded(s, width).len() - s.len()) == s,
        forall|i: int|
            0 <= i < padded(s, width).len() - s.len() ==> #[trigger] padded(s, width)[i] == ' ',
{
    assert(padded(s, width).skip(padded(s, width).len() - s.len()) =~= s);
}

/// The progress line gives the percentage where there is one, and else how
/// much is done. Behind it stand the speed, where that is known, and with a
/// percentage only together with the time left.
pub proof fn progress_line_tells_what_is_known(p: Progress)
    ensures
        p.percent is Some && p.speed is Some && p.eta_secs is Some ==> progress_line(p)
            == "\rEncoding progress: "@ + padded(fixed(p.percent->0, false), 5) + "%"@
            + " (speed "@ + fixed(p.speed->0, true) + "x, ETA "@ + clock_of(p.eta_secs->0)
            + ")   "@,
        p.percent is Some && (p.speed is None || p.eta_secs is None) ==> progress_line(p)
            == "\rEncoding progress: "@ + padded(fixed(p.percent->0, false), 5) + "%"@,
        p.percent is None && p.speed is Some ==> progress_line(p) == "\rEncoded "@ + clock_of(
            p.done_secs,
        ) + " (speed "@ + fixed(p.speed->0, true) + "x)   "@,
        p.percent is None && p.speed is None ==> progress_line(p) == "\rEncoded "@ + clock_of(
            p.done_secs,
        ),
{
}

} // verus!
