//! Collecting latencies and judging them: jitter, summary figures, and the
//! check of a steady stretch against what was expected.

use vstd::prelude::*;
use vstd::arithmetic::mul::*;
use crate::sink::LatencySample;

verus! {

/// Latencies in the order in which they were reported, in milliseconds.
/// None is negative.
#[derive(Debug)]
pub struct LatencyAnalyzer {
    samples: Vec<i64>,
}

/// The sum of the values.
pub open spec fn sum_of(values: Seq<i64>) -> int
    decreases values.len(),
{
    if values.len() == 0 {
        0
    } else {
        sum_of(values.drop_last()) + values.last()
    }
}

/// Whether `bound` is the smallest of the values.
pub open spec fn is_min_of(bound: i64, values: Seq<i64>) -> bool {
    &&& exists|i: int| 0 <= i < values.len() && values[i] == bound
    &&& forall|i: int| 0 <= i < values.len() ==> bound <= values[i]
}

/// Whether `bound` is the largest of the values.
pub open spec fn is_max_of(bound: i64, values: Seq<i64>) -> bool {
    &&& exists|i: int| 0 <= i < values.len() && values[i] == bound
    &&& forall|i: int| 0 <= i < values.len() ==> values[i] <= bound
}

pub open spec fn none_negative(values: Seq<i64>) -> bool {
    forall|i: int| 0 <= i < values.len() ==> values[i] >= 0
}

/// The differences between each value and the one before it.
pub open spec fn jitter_of(values: Seq<i64>) -> Seq<int> {
    Seq::new(
        if values.len() == 0 {
            0
        } else {
            (values.len() - 1) as nat
        },
        |i: int| values[i + 1] - values[i],
    )
}

/// The values without the first one and without the last `discard_tail`.
pub open spec fn steady_part(values: Seq<i64>, discard_tail: int) -> Seq<i64> {
    if 1 + discard_tail <= values.len() {
        values.subrange(1, values.len() - discard_tail)
    } else {
        Seq::empty()
    }
}

impl View for LatencyAnalyzer {
    type V = Seq<i64>;

    closed spec fn view(&self) -> Seq<i64> {
        self.samples@
    }
}

impl LatencyAnalyzer {
    #[verifier::type_invariant]
    pub closed spec fn wf(self) -> bool {
        none_negative(self.samples@)
    }

    /// An analyzer that holds no sample.
    pub fn new() -> (r: LatencyAnalyzer)
        ensures
            r@ == Seq::<i64>::empty(),
            r.wf(),
    {
        LatencyAnalyzer { samples: Vec::new() }
    }

    /// Takes note of a sample.
    pub fn record(&mut self, sample: &LatencySample)
        ensures
            final(self)@ == old(self)@.push(sample.latency()),
    {
        proof {
            use_type_invariant(&*self);
        }
        let latency: i64 = sample.latency_ms();
        let mut samples: Vec<i64> = Vec::new();
        std::mem::swap(&mut self.samples, &mut samples);
        samples.push(latency);
        std::mem::swap(&mut self.samples, &mut samples);
    }

    /// The latencies recorded so far.
    pub fn latencies(&self) -> (r: &Vec<i64>)
        ensures
            r@ == self@,
            none_negative(r@),
    {
        proof {
            use_type_invariant(self);
        }
        &self.samples
    }

    /// The jitter of the recorded latencies: for each but the first, how
    /// much it differs from the one before.
    pub fn jitter_series(&self) -> (r: Vec<i64>)
        ensures
            r@.len() == jitter_of(self@).len(),
            forall|i: int| 0 <= i < r@.len() ==> r@[i] == jitter_of(self@)[i],
    {
        proof {
            use_type_invariant(self);
        }
        differences(&self.samples)
    }

    /// The latencies of the steady stretch: all of them but the first,
    /// which negotiation delays, and the last `discard_tail`, which a
    /// buffering stage lets go early when the stream ends.
    pub fn steady_state(&self, discard_tail: usize) -> (r: Vec<i64>)
        ensures
            r@ == steady_part(self@, discard_tail as int),
            none_negative(r@),
    {
        proof {
            use_type_invariant(self);
        }
        let n: usize = self.samples.len();
        let mut r: Vec<i64> = Vec::new();
        if discard_tail >= n {
            return r;
        }
        let end: usize = n - discard_tail;
        let mut i: usize = 1;
        while i < end
            invariant
                1 <= i <= end <= n,
                n == self.samples@.len(),
                r@.len() == i - 1,
                forall|k: int| 0 <= k < r@.len() ==> r@[k] == self.samples@[k + 1],
            decreases end - i,
        {
            r.push(self.samples[i]);
            i += 1;
        }
        assert(r@ =~= steady_part(self@, discard_tail as int));
        r
    }
}

/// The differences between each value and the one before it.
fn differences(values: &Vec<i64>) -> (r: Vec<i64>)
    requires
        none_negative(values@),
    ensures
        r@.len() == jitter_of(values@).len(),
        forall|i: int| 0 <= i < r@.len() ==> r@[i] == jitter_of(values@)[i],
{
    let mut r: Vec<i64> = Vec::new();
    let mut i: usize = 1;
    while i < values.len()
        invariant
            1 <= i,
            none_negative(values@),
            r@.len() == (if values@.len() == 0 {
                0
            } else {
                i - 1
            }),
            i <= values@.len() || values@.len() == 0,
            forall|k: int| 0 <= k < r@.len() ==> r@[k] == values@[k + 1] - values@[k],
        decreases values@.len() - i,
    {
        r.push(values[i] - values[i - 1]);
        i += 1;
    }
    r
}

/// The sum of the squares of the values.
pub open spec fn sum_squares_of(values: Seq<i64>) -> int
    decreases values.len(),
{
    if values.len() == 0 {
        0
    } else {
        sum_squares_of(values.drop_last()) + values.last() * values.last()
    }
}

/// The sample variance of the values is `variance_numer / variance_denom`:
/// the sum of the squared distances from the mean, over one less than the
/// number of values, brought to whole numbers.
pub open spec fn variance_numer(values: Seq<i64>) -> int {
    values.len() * sum_squares_of(values) - sum_of(values) * sum_of(values)
}

pub open spec fn variance_denom(values: Seq<i64>) -> int {
    values.len() * (values.len() - 1)
}

/// The sum of the squared distances of the values from `center`.
pub open spec fn spread_around(values: Seq<i64>, center: int) -> int
    decreases values.len(),
{
    if values.len() == 0 {
        0
    } else {
        spread_around(values.drop_last(), center) + (values.last() - center) * (values.last()
            - center)
    }
}

proof fn lemma_spread_around(values: Seq<i64>, center: int)
    ensures
        spread_around(values, center) >= 0,
        spread_around(values, center) == sum_squares_of(values) - 2 * center * sum_of(values)
            + values.len() * center * center,
    decreases values.len(),
{
    if values.len() > 0 {
        let rest = values.drop_last();
        let y = values.last() as int;
        lemma_spread_around(rest, center);
        let q = sum_squares_of(rest);
        let t = sum_of(rest);
        let n = rest.len() as int;
        assert((y - center) * (y - center) >= 0) by (nonlinear_arith);
        assert(q + y * y - 2 * center * (t + y) + (n + 1) * center * center == (q - 2 * center * t
            + n * center * center) + (y - center) * (y - center)) by (nonlinear_arith);
    }
}

/// The numerator of the variance is never negative.
pub proof fn lemma_variance_not_negative(values: Seq<i64>)
    ensures
        variance_numer(values) >= 0,
        sum_squares_of(values) >= 0,
    decreases values.len(),
{
    if values.len() > 0 {
        let rest = values.drop_last();
        let y = values.last() as int;
        lemma_variance_not_negative(rest);
        lemma_spread_around(rest, y);
        let q = sum_squares_of(rest);
        let t = sum_of(rest);
        let n = rest.len() as int;
        assert(y * y >= 0) by (nonlinear_arith);
        assert((n + 1) * (q + y * y) - (t + y) * (t + y) == (n * q - t * t) + (q - 2 * y * t + n
            * y * y)) by (nonlinear_arith);
    }
}

/// A fraction of two whole numbers.
#[derive(Clone, Copy, Debug, PartialEq, Eq, Structural)]
pub struct Fraction {
    pub numer: u128,
    pub denom: u128,
}

/// The figures that sum up a run of values.
#[derive(Clone, Copy, Debug, PartialEq, Eq, Structural)]
pub struct Summary {
    /// How many values there are.
    pub count: usize,
    pub min: i64,
    pub max: i64,
    pub sum: i128,
    /// The mean, rounded down.
    pub mean: i128,
    /// The sample variance as an exact fraction; `None` for fewer than two
    /// values, and where the figures do not fit in 128 bits.
    pub variance: Option<Fraction>,
    /// The standard deviation: the square root of the variance rounded
    /// down to a whole number, itself rounded down.
    pub std_dev: Option<u64>,
}

/// Whether `summary` sums up `values`.
pub open spec fn summarizes(summary: Summary, values: Seq<i64>) -> bool {
    &&& summary.count == values.len()
    &&& is_min_of(summary.min, values)
    &&& is_max_of(summary.max, values)
    &&& summary.sum == sum_of(values)
    &&& summary.mean == sum_of(values) / (values.len() as int)
    &&& summary.variance is Some <==> values.len() >= 2 && values.len() * sum_squares_of(values)
        <= u128::MAX
    &&& summary.variance matches Some(variance) ==> {
        &&& variance.numer == variance_numer(values)
        &&& variance.denom == variance_denom(values)
    }
    &&& summary.std_dev is Some <==> summary.variance is Some
    &&& summary.std_dev matches Some(root) ==> is_floor_sqrt(
        root as int,
        variance_numer(values) / variance_denom(values),
    )
}

/// Whether `root` is the square root of `value`, rounded down.
pub open spec fn is_floor_sqrt(root: int, value: int) -> bool {
    0 <= root && root * root <= value < (root + 1) * (root + 1)
}

/// The square root of `value`, rounded down.
pub fn floor_sqrt(value: u128) -> (root: u64)
    ensures
        is_floor_sqrt(root as int, value as int),
{
    let mut low: u128 = 0;
    let mut high: u128 = 0x1_0000_0000_0000_0000;
    assert(0x1_0000_0000_0000_0000 * 0x1_0000_0000_0000_0000 > u128::MAX) by (nonlinear_arith);
    while high - low > 1
        invariant
            low < high <= 0x1_0000_0000_0000_0000,
            low * low <= value,
            value < high * high,
        decreases high - low,
    {
        let mid: u128 = low + (high - low) / 2;
        proof {
            lemma_mul_upper_bound(
                mid as int,
                0xffff_ffff_ffff_ffff,
                mid as int,
                0xffff_ffff_ffff_ffff,
            );
            assert(0xffff_ffff_ffff_ffff * 0xffff_ffff_ffff_ffff <= u128::MAX) by (nonlinear_arith);
        }
        if mid * mid <= value {
            low = mid;
        } else {
            high = mid;
        }
    }
    low as u64
}

/// The sum of the numbers.
pub open spec fn total_of(numbers: Seq<int>) -> int
    decreases numbers.len(),
{
    if numbers.len() == 0 {
        0
    } else {
        total_of(numbers.drop_last()) + numbers.last()
    }
}

/// Whether the steady stretch of the latencies is as expected: it holds
/// at least two latencies, their mean lies within `tolerance_ms` of
/// `expected_ms`, and their jitter has a mean of at most `tolerance_ms` and
/// nowhere exceeds it.
pub open spec fn steady_within(
    values: Seq<i64>,
    expected_ms: i64,
    tolerance_ms: i64,
    discard_tail: int,
) -> bool {
    let steady = steady_part(values, discard_tail);
    let jitter = jitter_of(steady);
    &&& steady.len() >= 2
    &&& (expected_ms - tolerance_ms) * steady.len() <= sum_of(steady)
    &&& sum_of(steady) <= (expected_ms + tolerance_ms) * steady.len()
    &&& total_of(jitter) <= tolerance_ms * jitter.len()
    &&& forall|i: int| 0 <= i < jitter.len() ==> jitter[i] <= tolerance_ms
}

/// The jitter of a run adds up to the distance from its first value to
/// its last.
pub proof fn lemma_jitter_adds_up(values: Seq<i64>)
    requires
        values.len() >= 1,
    ensures
        total_of(jitter_of(values)) == values.last() - values.first(),
    decreases values.len(),
{
    if values.len() == 1 {
        assert(jitter_of(values) =~= Seq::<int>::empty());
    } else {
        let rest = values.drop_last();
        lemma_jitter_adds_up(rest);
        assert(jitter_of(values).drop_last() =~= jitter_of(rest));
        assert(jitter_of(values).last() == values.last() - rest.last());
    }
}

/// Values of which none is negative add up to no less than zero.
proof fn lemma_sum_not_negative(values: Seq<i64>)
    requires
        none_negative(values),
    ensures
        sum_of(values) >= 0,
    decreases values.len(),
{
    if values.len() > 0 {
        lemma_sum_not_negative(values.drop_last());
    }
}

impl LatencyAnalyzer {
    /// Checks the steady stretch of the recorded latencies against what
    /// was expected of it.
    pub fn check_steady(&self, expected_ms: i64, tolerance_ms: i64, discard_tail: usize) -> (r:
        bool)
        ensures
            r == steady_within(self@, expected_ms, tolerance_ms, discard_tail as int),
    {
        let steady = self.steady_state(discard_tail);
        let n: usize = steady.len();
        if n < 2 {
            return false;
        }
        let summary = match summarize(&steady) {
            Some(summary) => summary,
            None => {
                return false;
            },
        };
        proof {
            lemma_sum_not_negative(steady@);
            lemma_jitter_adds_up(steady@);
        }
        let sum: u128 = summary.sum as u128;
        let count: u128 = n as u128;
        let low: i128 = expected_ms as i128 - tolerance_ms as i128;
        let high: i128 = expected_ms as i128 + tolerance_ms as i128;
        let low_ok: bool = if low <= 0 {
            assert(low * n <= 0) by (nonlinear_arith)
                requires
                    low <= 0,
                    n >= 0,
            ;
            true
        } else {
            assert(0 <= low * n <= 0xffff_ffff_ffff_ffff * 0xffff_ffff_ffff_ffff) by (
                nonlinear_arith)
                requires
                    0 < low <= 0xffff_ffff_ffff_ffff,
                    0 <= n <= 0xffff_ffff_ffff_ffff,
            ;
            (low as u128) * count <= sum
        };
        let high_ok: bool = if high < 0 {
            assert(high * n < 0) by (nonlinear_arith)
                requires
                    high < 0,
                    n >= 2,
            ;
            false
        } else {
            assert(0 <= high * n <= 0xffff_ffff_ffff_ffff * 0xffff_ffff_ffff_ffff) by (
                nonlinear_arith)
                requires
                    0 <= high <= 0xffff_ffff_ffff_ffff,
                    0 <= n <= 0xffff_ffff_ffff_ffff,
            ;
            sum <= (high as u128) * count
        };
        let drift: i128 = steady[n - 1] as i128 - steady[0] as i128;
        let pairs: i128 = (n - 1) as i128;
        assert(-(REACH * 0xffff_ffff_ffff_ffff) <= tolerance_ms * pairs <= REACH
            * 0xffff_ffff_ffff_ffff) by (nonlinear_arith)
            requires
                -REACH <= tolerance_ms <= REACH,
                0 <= pairs <= 0xffff_ffff_ffff_ffff,
        ;
        let mean_ok: bool = drift <= (tolerance_ms as i128) * pairs;
        let mut peak_ok: bool = true;
        let mut i: usize = 1;
        while i < n
            invariant
                1 <= i <= n,
                n == steady@.len(),
                none_negative(steady@),
                peak_ok == (forall|k: int|
                    0 <= k < i - 1 ==> #[trigger] jitter_of(steady@)[k] <= tolerance_ms),
            decreases n - i,
        {
            let step: i64 = steady[i] - steady[i - 1];
            assert(step == jitter_of(steady@)[i - 1]);
            if step > tolerance_ms {
                peak_ok = false;
            }
            i += 1;
        }
        low_ok && high_ok && mean_ok && peak_ok
    }
}

/// Half the range of a 64-bit number: no value is further from zero.
const REACH: i128 = 0x8000_0000_0000_0000;

/// Sums up a run of values: how many, the smallest and the largest, their
/// sum and mean, their variance and standard deviation.  No values, no
/// summary.
pub fn summarize(values: &Vec<i64>) -> (r: Option<Summary>)
    ensures
        r is Some <==> values@.len() > 0,
        r matches Some(summary) ==> summarizes(summary, values@),
{
    let n: usize = values.len();
    if n == 0 {
        return None;
    }
    let mut min: i64 = values[0];
    let mut max: i64 = values[0];
    let mut sum: i128 = 0;
    let mut squares: Option<u128> = Some(0);
    let mut i: usize = 0;
    assert(values@.take(0) =~= Seq::<i64>::empty());
    while i < n
        invariant
            i <= n,
            n == values@.len(),
            n > 0,
            i == 0 ==> min == values@[0] && max == values@[0],
            i > 0 ==> is_min_of(min, values@.take(i as int)) && is_max_of(
                max,
                values@.take(i as int),
            ),
            sum == sum_of(values@.take(i as int)),
            -(i * REACH) <= sum <= i * REACH,
            0 <= sum_squares_of(values@.take(i as int)),
            squares is Some <==> sum_squares_of(values@.take(i as int)) <= u128::MAX,
            squares is Some ==> squares.unwrap() == sum_squares_of(values@.take(i as int)),
        decreases n - i,
    {
        let x: i64 = values[i];
        let ghost before = values@.take(i as int);
        let ghost after = values@.take(i + 1);
        proof {
            assert(after.drop_last() =~= before);
            assert(after.last() == x);
            assert(forall|k: int| 0 <= k < i ==> after[k] == before[k]);
            assert(after[i as int] == x);
            assert((i + 1) * REACH == i * REACH + REACH) by (nonlinear_arith);
            assert(i * REACH <= 0xffff_ffff_ffff_ffff * REACH) by (nonlinear_arith)
                requires
                    0 <= i <= 0xffff_ffff_ffff_ffff,
            ;
            assert(0 <= x * x <= REACH * REACH) by (nonlinear_arith)
                requires
                    -REACH <= x <= REACH,
            ;
        }
        if i == 0 {
            min = x;
            max = x;
        } else {
            let ghost low = choose|k: int| 0 <= k < before.len() && before[k] == min;
            let ghost high = choose|k: int| 0 <= k < before.len() && before[k] == max;
            assert(after[low] == min && after[high] == max);
            if x < min {
                min = x;
            }
            if x > max {
                max = x;
            }
        }
        sum = sum + x as i128;
        let wide: i128 = x as i128;
        let square: u128 = (wide * wide) as u128;
        squares = match squares {
            Some(so_far) => so_far.checked_add(square),
            None => None,
        };
        i += 1;
    }
    assert(values@.take(n as int) =~= values@);
    assert(n * REACH <= 0xffff_ffff_ffff_ffff * REACH) by (nonlinear_arith)
        requires
            0 <= n <= 0xffff_ffff_ffff_ffff,
    ;
    let count: u128 = n as u128;
    let mean: i128 = if sum >= 0 {
        (sum as u128 / count) as i128
    } else {
        let magnitude: u128 = (-sum) as u128;
        let up: u128 = (magnitude + (count - 1)) / count;
        proof {
            lemma_floor_of_negative(magnitude as int, count as int);
        }
        -(up as i128)
    };
    let variance: Option<Fraction> = if n < 2 {
        None
    } else {
        proof {
            lemma_variance_not_negative(values@);
            let q = sum_squares_of(values@);
            assert(q > u128::MAX ==> n * q > u128::MAX) by (nonlinear_arith)
                requires
                    n >= 1,
                    q >= 0,
            ;
        }
        match squares {
            None => None,
            Some(all) => match count.checked_mul(all) {
                None => None,
                Some(scaled) => {
                    let magnitude: u128 = if sum >= 0 {
                        sum as u128
                    } else {
                        (-sum) as u128
                    };
                    proof {
                        assert(magnitude * magnitude == sum * sum) by (nonlinear_arith)
                            requires
                                magnitude == sum || magnitude == -sum,
                        ;
                        assert(0 <= (count - 1) * count <= 0xffff_ffff_ffff_ffff
                            * 0xffff_ffff_ffff_ffff) by (nonlinear_arith)
                            requires
                                1 <= count <= 0xffff_ffff_ffff_ffff,
                        ;
                        assert(n * (n - 1) == (count - 1) * count) by (nonlinear_arith)
                            requires
                                n == count,
                        ;
                    }
                    let squared: u128 = magnitude * magnitude;
                    Some(Fraction { numer: scaled - squared, denom: (count - 1) * count })
                },
            },
        }
    };
    let std_dev: Option<u64> = match variance {
        None => None,
        Some(fraction) => {
            assert(fraction.denom > 0) by (nonlinear_arith)
                requires
                    fraction.denom == n * (n - 1),
                    n >= 2,
            ;
            Some(floor_sqrt(fraction.numer / fraction.denom))
        },
    };
    Some(Summary { count: n, min, max, sum, mean, variance, std_dev })
}

/// Rounding a negative quotient down is rounding its opposite up.
proof fn lemma_floor_of_negative(magnitude: int, count: int)
    requires
        magnitude > 0,
        count > 0,
    ensures
        (-magnitude) / count == -((magnitude + (count - 1)) / count),
        0 <= (magnitude + (count - 1)) / count <= magnitude,
{
    let up = (magnitude + (count - 1)) / count;
    let rest = (magnitude + (count - 1)) % count;
    vstd::arithmetic::div_mod::lemma_fundamental_div_mod(magnitude + (count - 1), count);
    vstd::arithmetic::div_mod::lemma_mod_bound(magnitude + (count - 1), count);
    assert(0 <= up <= magnitude) by (nonlinear_arith)
        requires
            magnitude + (count - 1) == count * up + rest,
            0 <= rest < count,
            magnitude > 0,
    ;
    assert(-magnitude == (-up) * count + (count - 1 - rest)) by (nonlinear_arith)
        requires
            magnitude + (count - 1) == count * up + rest,
    ;
    vstd::arithmetic::div_mod::lemma_fundamental_div_mod_converse(
        -magnitude,
        count,
        -up,
        count - 1 - rest,
    );
}

} // verus!
