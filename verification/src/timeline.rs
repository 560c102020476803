//! Exact frame timing: rational frame rates and nanosecond clock times.

use vstd::prelude::*;
use vstd::arithmetic::div_mod::*;
use vstd::arithmetic::mul::*;

verus! {

/// A point or span on a clock, in nanoseconds.
pub type ClockTime = u64;

/// Nanoseconds in one second.
pub const NANOS_PER_SECOND: u64 = 1_000_000_000;

/// A frame rate: `numer / denom` frames per second.
#[derive(Clone, Copy, Debug, PartialEq, Eq, Structural)]
pub struct Rational {
    pub numer: i32,
    pub denom: i32,
}

impl Rational {
    /// A rate is usable when both of its terms are positive.
    pub open spec fn is_positive(self) -> bool {
        self.numer > 0 && self.denom > 0
    }

    /// The rate of `frames` whole frames per second.
    pub fn from_integer(frames: i32) -> (r: Rational)
        ensures
            r == (Rational { numer: frames, denom: 1 }),
    {
        Rational { numer: frames, denom: 1 }
    }

    pub fn check_positive(&self) -> (r: bool)
        ensures
            r == self.is_positive(),
    {
        self.numer > 0 && self.denom > 0
    }
}

/// `value * num / den`, rounded down, over the mathematical integers.
pub open spec fn scale_floor(value: int, num: int, den: int) -> int {
    (value * num) / den
}

/// `value * num / den` rounded down; `None` when `den` is zero or the
/// quotient does not fit in 64 bits.
pub fn mul_div_floor(value: u64, num: u64, den: u64) -> (r: Option<u64>)
    ensures
        r is Some <==> den != 0 && scale_floor(value as int, num as int, den as int) <= u64::MAX,
        r is Some ==> r.unwrap() == scale_floor(value as int, num as int, den as int),
{
    if den == 0 {
        return None;
    }
    proof {
        lemma_mul_upper_bound(value as int, u64::MAX as int, num as int, u64::MAX as int);
    }
    let product: u128 = (value as u128) * (num as u128);
    let quotient: u128 = product / (den as u128);
    if quotient > u64::MAX as u128 {
        None
    } else {
        Some(quotient as u64)
    }
}

/// Nanoseconds taken by `frames` frames at `rate`, rounded down.
///
/// The product is formed before the division, so that rounding happens
/// once and does not add up over thousands of frames.
pub open spec fn span_of(frames: int, rate: Rational) -> int {
    (frames * NANOS_PER_SECOND as int * rate.denom as int) / (rate.numer as int)
}

/// The running time at which frame number `frames` of a segment starts;
/// `None` when the rate is not positive or the time does not fit in 64 bits.
pub fn running_time(frames: u64, rate: Rational) -> (r: Option<ClockTime>)
    ensures
        r is Some <==> rate.is_positive() && span_of(frames as int, rate) <= u64::MAX,
        r is Some ==> r.unwrap() == span_of(frames as int, rate),
{
    if !rate.check_positive() {
        return None;
    }
    proof {
        lemma_mul_upper_bound(
            frames as int,
            u64::MAX as int,
            NANOS_PER_SECOND as int,
            NANOS_PER_SECOND as int,
        );
        lemma_mul_upper_bound(
            frames as int * NANOS_PER_SECOND as int,
            u64::MAX as int * NANOS_PER_SECOND as int,
            rate.denom as int,
            i32::MAX as int,
        );
    }
    let scaled: u128 = (frames as u128) * (NANOS_PER_SECOND as u128) * (rate.denom as u128);
    let quotient: u128 = scaled / (rate.numer as u128);
    if quotient > u64::MAX as u128 {
        None
    } else {
        Some(quotient as u64)
    }
}

/// How long one frame lasts at `rate`, rounded down to whole nanoseconds;
/// `None` exactly when the rate is not positive.
pub fn frame_duration(rate: Rational) -> (r: Option<ClockTime>)
    ensures
        r is Some <==> rate.is_positive(),
        r is Some ==> r.unwrap() == span_of(1, rate),
{
    if !rate.check_positive() {
        return None;
    }
    proof {
        lemma_one_frame_fits(rate);
        assert(span_of(1, rate) == scale_floor(
            NANOS_PER_SECOND as int,
            rate.denom as int,
            rate.numer as int,
        ));
    }
    mul_div_floor(NANOS_PER_SECOND, rate.denom as u64, rate.numer as u64)
}

/// One frame never lasts longer than 64 bits of nanoseconds can say.
pub proof fn lemma_one_frame_fits(rate: Rational)
    requires
        rate.is_positive(),
    ensures
        0 <= span_of(1, rate) <= NANOS_PER_SECOND * i32::MAX,
        span_of(1, rate) <= u64::MAX,
{
    let c = 1 * NANOS_PER_SECOND as int * rate.denom as int;
    let n = rate.numer as int;
    assert(0 <= c <= NANOS_PER_SECOND * i32::MAX) by (nonlinear_arith)
        requires
            c == 1 * NANOS_PER_SECOND as int * rate.denom as int,
            0 < rate.denom <= i32::MAX,
    ;
    lemma_div_pos_is_pos(c, n);
    lemma_div_is_ordered_by_denominator(c, 1, n);
    lemma_div_basics(c);
}

/// Running time never goes backwards as frames are counted.
pub proof fn lemma_span_monotonic(earlier: int, later: int, rate: Rational)
    requires
        rate.is_positive(),
        0 <= earlier <= later,
    ensures
        0 <= span_of(earlier, rate) <= span_of(later, rate),
{
    let n = rate.numer as int;
    let a = earlier * NANOS_PER_SECOND as int * rate.denom as int;
    let b = later * NANOS_PER_SECOND as int * rate.denom as int;
    assert(0 <= a <= b) by (nonlinear_arith)
        requires
            a == earlier * NANOS_PER_SECOND as int * rate.denom as int,
            b == later * NANOS_PER_SECOND as int * rate.denom as int,
            0 <= earlier <= later,
            rate.denom > 0,
    ;
    lemma_div_pos_is_pos(a, n);
    lemma_div_is_ordered(a, b, n);
}

/// Consecutive frames start one frame duration apart, give or take the one
/// nanosecond that rounding down can hold back: the frame's reported span
/// never reaches into the next frame, and falls short of it by at most one
/// nanosecond.
pub proof fn lemma_span_step(frames: int, rate: Rational)
    requires
        rate.is_positive(),
        0 <= frames,
    ensures
        span_of(frames, rate) + span_of(1, rate) <= span_of(frames + 1, rate),
        span_of(frames + 1, rate) <= span_of(frames, rate) + span_of(1, rate) + 1,
{
    let n = rate.numer as int;
    let c = 1 * NANOS_PER_SECOND as int * rate.denom as int;
    let x = frames * NANOS_PER_SECOND as int * rate.denom as int;
    let y = (frames + 1) * NANOS_PER_SECOND as int * rate.denom as int;
    assert(y == x + c) by (nonlinear_arith)
        requires
            c == 1 * NANOS_PER_SECOND as int * rate.denom as int,
            x == frames * NANOS_PER_SECOND as int * rate.denom as int,
            y == (frames + 1) * NANOS_PER_SECOND as int * rate.denom as int,
    ;
    lemma_fundamental_div_mod(x, n);
    lemma_fundamental_div_mod(c, n);
    lemma_mod_bound(x, n);
    lemma_mod_bound(c, n);
    let rest = x % n + c % n;
    let whole = x / n + c / n;
    assert(y == whole * n + rest) by (nonlinear_arith)
        requires
            y == x + c,
            x == n * (x / n) + x % n,
            c == n * (c / n) + c % n,
            rest == x % n + c % n,
            whole == x / n + c / n,
    ;
    if rest < n {
        lemma_fundamental_div_mod_converse(y, n, whole, rest);
    } else {
        assert(y == (whole + 1) * n + (rest - n)) by (nonlinear_arith)
            requires
                y == whole * n + rest,
        ;
        lemma_fundamental_div_mod_converse(y, n, whole + 1, rest - n);
    }
}

/// Where the rate divides the second evenly, every frame starts a whole
/// number of frame durations into its segment, so consecutive frames are
/// exactly one frame duration apart.
pub proof fn lemma_span_exact(frames: int, rate: Rational)
    requires
        rate.is_positive(),
        0 <= frames,
        (NANOS_PER_SECOND * rate.denom) % (rate.numer as int) == 0,
    ensures
        span_of(frames, rate) == frames * span_of(1, rate),
        span_of(frames + 1, rate) - span_of(frames, rate) == span_of(1, rate),
{
    let n = rate.numer as int;
    let c = 1 * NANOS_PER_SECOND as int * rate.denom as int;
    let period = c / n;
    assert(c == NANOS_PER_SECOND * rate.denom);
    lemma_fundamental_div_mod(c, n);
    assert(c == n * period);
    lemma_span_multiple(frames, rate, period);
    lemma_span_multiple(frames + 1, rate, period);
    assert((frames + 1) * period - frames * period == period) by (nonlinear_arith);
}

proof fn lemma_span_multiple(frames: int, rate: Rational, period: int)
    requires
        rate.is_positive(),
        0 <= frames,
        1 * NANOS_PER_SECOND as int * rate.denom as int == rate.numer as int * period,
    ensures
        span_of(frames, rate) == frames * period,
{
    let n = rate.numer as int;
    let x = frames * NANOS_PER_SECOND as int * rate.denom as int;
    assert(x == (frames * period) * n + 0) by (nonlinear_arith)
        requires
            x == frames * NANOS_PER_SECOND as int * rate.denom as int,
            1 * NANOS_PER_SECOND as int * rate.denom as int == n * period,
    ;
    lemma_fundamental_div_mod_converse(x, n, frames * period, 0);
}

} // verus!
