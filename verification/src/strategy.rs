//! Trading strategies.
//!
//! A strategy maps the bar history up to and including the current bar to a
//! [`Signal`]. Each strategy states its decision rule as a spec function of
//! the history and proves its executable code equal to it. Before enough
//! history exists (each strategy's warm-up rule) the signal is `Hold`,
//! never an error.
//!
//! Average comparisons are made exactly: `a/p < b/q` is decided as
//! `a*q < b*p`, so no rounding enters a crossover decision. The Bollinger
//! rule rounds where an exact value does not exist: the mean and the
//! variance round down to the mantissa grid, and the standard deviation is
//! the integer square root of the variance mantissa.

use vstd::prelude::*;
use crate::data::{candles_wf, Candle};
use crate::fixed::{Fixed, MAX_BARS, MAX_PRICE, SCALE};

verus! {

/// A trading decision for one bar.
#[derive(Clone, Copy, Debug, PartialEq, Eq, Structural)]
pub enum Signal {
    Buy,
    Sell,
    Hold,
}

/// A trading rule: a pure function from the bar history seen so far to a
/// signal. `spec_signal` is the rule itself; `generate_signal` computes it.
pub trait Strategy: Sized {
    /// Parameter validity for this strategy.
    spec fn wf(&self) -> bool;

    /// The decision rule as a mathematical function of the history.
    spec fn spec_signal(&self, candles: Seq<Candle>) -> Signal;

    /// Computes the signal for the history whose last element is the
    /// current bar.
    fn generate_signal(&self, candles: &[Candle]) -> (s: Signal)
        requires
            self.wf(),
            1 <= candles@.len() <= MAX_BARS,
            candles_wf(candles@),
        ensures
            s == self.spec_signal(candles@),
    ;

    /// A human-readable strategy name.
    fn name(&self) -> (r: &'static str);
}

/// Sum of the close mantissas of `s[from..to]`.
pub open spec fn sum_close_range(s: Seq<Candle>, from: int, to: int) -> int
    decreases to - from,
{
    if from >= to {
        0
    } else {
        sum_close_range(s, from, to - 1) + s[to - 1].close.m()
    }
}

/// A window sum of well-formed closes lies between `0` and
/// `width * MAX_PRICE`.
proof fn lemma_sum_close_bounds(s: Seq<Candle>, from: int, to: int)
    requires
        0 <= from <= to <= s.len(),
        candles_wf(s),
    ensures
        0 <= sum_close_range(s, from, to) <= (to - from) * MAX_PRICE,
    decreases to - from,
{
    if from < to {
        lemma_sum_close_bounds(s, from, to - 1);
        assert((to - 1 - from) * MAX_PRICE + MAX_PRICE == (to - from) * MAX_PRICE) by (
        nonlinear_arith);
    }
}

/// Computes [`sum_close_range`] over a slice window.
fn sum_close(candles: &[Candle], from: usize, to: usize) -> (r: i128)
    requires
        from <= to <= candles@.len(),
        to - from <= MAX_BARS,
        candles_wf(candles@),
    ensures
        r == sum_close_range(candles@, from as int, to as int),
        0 <= r <= (to - from) * MAX_PRICE,
{
    proof {
        lemma_sum_close_bounds(candles@, from as int, to as int);
    }
    let mut acc: i128 = 0;
    let mut k = from;
    while k < to
        invariant
            from <= k <= to <= candles@.len(),
            to - from <= MAX_BARS,
            candles_wf(candles@),
            acc == sum_close_range(candles@, from as int, k as int),
            0 <= acc <= (k - from) * MAX_PRICE,
        decreases to - k,
    {
        let c = candles[k];
        proof {
            assert(candles@[k as int].wf());
            assert((k - from) * MAX_PRICE <= MAX_BARS * MAX_PRICE) by (nonlinear_arith)
                requires
                    0 <= k - from <= MAX_BARS,
            ;
            assert((k - from) * MAX_PRICE + MAX_PRICE == (k + 1 - from) * MAX_PRICE) by (
            nonlinear_arith);
        }
        acc = acc + c.close.mantissa;
        k = k + 1;
    }
    acc
}

/// Simple-moving-average crossover: `Buy` when the short average crosses
/// from at-most to above the long average between the previous bar and the
/// current one, `Sell` on the reverse crossing, `Hold` otherwise, and
/// `Hold` until `long_period + 1` bars exist.
#[derive(Clone, Copy, Debug)]
pub struct SmaCrossover {
    pub short_period: usize,
    pub long_period: usize,
}

/// The crossover rule. Averages over different window widths are compared
/// exactly by cross-multiplying the window sums.
pub open spec fn sma_signal(short: int, long: int, s: Seq<Candle>) -> Signal {
    if s.len() < long + 1 {
        Signal::Hold
    } else {
        let n = s.len() as int;
        let cs = sum_close_range(s, n - short, n);
        let cl = sum_close_range(s, n - long, n);
        let ps = sum_close_range(s, n - 1 - short, n - 1);
        let pl = sum_close_range(s, n - 1 - long, n - 1);
        if ps * long <= pl * short && cs * long > cl * short {
            Signal::Buy
        } else if ps * long >= pl * short && cs * long < cl * short {
            Signal::Sell
        } else {
            Signal::Hold
        }
    }
}

impl SmaCrossover {
    /// Builds the strategy; the short window must be shorter than the long
    /// one.
    pub fn new(short_period: usize, long_period: usize) -> (r: Self)
        requires
            1 <= short_period < long_period,
        ensures
            r.short_period == short_period,
            r.long_period == long_period,
    {
        Self { short_period, long_period }
    }
}

impl Strategy for SmaCrossover {
    open spec fn wf(&self) -> bool {
        1 <= self.short_period < self.long_period
    }

    open spec fn spec_signal(&self, candles: Seq<Candle>) -> Signal {
        sma_signal(self.short_period as int, self.long_period as int, candles)
    }

    fn generate_signal(&self, candles: &[Candle]) -> (s: Signal) {
        let n = candles.len();
        if n <= self.long_period {
            return Signal::Hold;
        }
        let short = self.short_period;
        let long = self.long_period;
        let cs = sum_close(candles, n - short, n);
        let cl = sum_close(candles, n - long, n);
        let ps = sum_close(candles, n - 1 - short, n - 1);
        let pl = sum_close(candles, n - 1 - long, n - 1);
        proof {
            assert(0 <= cs * (long as int) <= MAX_BARS * MAX_PRICE * MAX_BARS) by (nonlinear_arith)
                requires
                    0 <= cs <= (short as int) * MAX_PRICE,
                    0 < short as int <= MAX_BARS,
                    0 < long as int <= MAX_BARS,
            ;
            assert(0 <= cl * (short as int) <= MAX_BARS * MAX_PRICE * MAX_BARS) by (nonlinear_arith)
                requires
                    0 <= cl <= (long as int) * MAX_PRICE,
                    0 < short as int <= MAX_BARS,
                    0 < long as int <= MAX_BARS,
            ;
            assert(0 <= ps * (long as int) <= MAX_BARS * MAX_PRICE * MAX_BARS) by (nonlinear_arith)
                requires
                    0 <= ps <= (short as int) * MAX_PRICE,
                    0 < short as int <= MAX_BARS,
                    0 < long as int <= MAX_BARS,
            ;
            assert(0 <= pl * (short as int) <= MAX_BARS * MAX_PRICE * MAX_BARS) by (nonlinear_arith)
                requires
                    0 <= pl <= (long as int) * MAX_PRICE,
                    0 < short as int <= MAX_BARS,
                    0 < long as int <= MAX_BARS,
            ;
            assert(MAX_BARS * MAX_PRICE * MAX_BARS < i128::MAX) by (nonlinear_arith);
        }
        let cs_l = cs * (long as i128);
        let cl_s = cl * (short as i128);
        let ps_l = ps * (long as i128);
        let pl_s = pl * (short as i128);
        if ps_l <= pl_s && cs_l > cl_s {
            Signal::Buy
        } else if ps_l >= pl_s && cs_l < cl_s {
            Signal::Sell
        } else {
            Signal::Hold
        }
    }

    fn name(&self) -> (r: &'static str) {
        "SMA Crossover"
    }
}

/// Momentum: `Buy` when the return over the lookback window exceeds the
/// threshold, `Sell` when it falls below its negation, `Hold` otherwise,
/// and `Hold` until `lookback_period + 1` bars exist.
#[derive(Clone, Copy, Debug)]
pub struct Momentum {
    pub lookback_period: usize,
    pub threshold: Fixed,
}

/// The momentum rule. The return comparison
/// `(cur - past) / past > threshold` is decided exactly as
/// `(cur - past) * SCALE > threshold * past`.
pub open spec fn momentum_signal(lookback: int, threshold: int, s: Seq<Candle>) -> Signal {
    if s.len() < lookback + 1 {
        Signal::Hold
    } else {
        let n = s.len() as int;
        let cur = s[n - 1].close.m();
        let past = s[n - 1 - lookback].close.m();
        if (cur - past) * SCALE > threshold * past {
            Signal::Buy
        } else if (cur - past) * SCALE < -(threshold * past) {
            Signal::Sell
        } else {
            Signal::Hold
        }
    }
}

impl Momentum {
    /// Builds the strategy; the threshold is a rate strictly between 0
    /// and 1.
    pub fn new(lookback_period: usize, threshold: Fixed) -> (r: Self)
        requires
            1 <= lookback_period,
            0 < threshold.m() < SCALE,
        ensures
            r.lookback_period == lookback_period,
            r.threshold == threshold,
    {
        Self { lookback_period, threshold }
    }
}

impl Strategy for Momentum {
    open spec fn wf(&self) -> bool {
        1 <= self.lookback_period && 0 < self.threshold.m() < SCALE
    }

    open spec fn spec_signal(&self, candles: Seq<Candle>) -> Signal {
        momentum_signal(self.lookback_period as int, self.threshold.m(), candles)
    }

    fn generate_signal(&self, candles: &[Candle]) -> (s: Signal) {
        let n = candles.len();
        if n <= self.lookback_period {
            return Signal::Hold;
        }
        let cur = candles[n - 1].close.mantissa;
        let past = candles[n - 1 - self.lookback_period].close.mantissa;
        proof {
            assert(candles@[n - 1].wf());
            assert(candles@[n - 1 - self.lookback_period as int].wf());
            assert((cur - past) * SCALE <= MAX_PRICE * SCALE && (cur - past) * SCALE >= -(MAX_PRICE
                * SCALE)) by (nonlinear_arith)
                requires
                    -MAX_PRICE <= cur - past <= MAX_PRICE,
                    SCALE == 1_000_000_000,
            ;
            assert(0 <= self.threshold.m() * past <= SCALE * MAX_PRICE) by (nonlinear_arith)
                requires
                    0 <= self.threshold.m() <= SCALE,
                    0 <= past <= MAX_PRICE,
            ;
        }
        let lhs = (cur - past) * SCALE;
        let rhs = self.threshold.mantissa * past;
        if lhs > rhs {
            Signal::Buy
        } else if lhs < -rhs {
            Signal::Sell
        } else {
            Signal::Hold
        }
    }

    fn name(&self) -> (r: &'static str) {
        "Momentum"
    }
}

/// `r` is the integer square root of `x`, rounded down.
pub open spec fn is_sqrt_floor(x: int, r: int) -> bool {
    0 <= r && r * r <= x && x < (r + 1) * (r + 1)
}

/// The integer square root of `x`, rounded down.
pub open spec fn sqrt_floor(x: int) -> int {
    choose|r: int| is_sqrt_floor(x, r)
}

/// Every non-negative integer has a floor square root.
proof fn lemma_sqrt_floor_exists(x: int)
    requires
        x >= 0,
    ensures
        is_sqrt_floor(x, sqrt_floor(x)),
    decreases x,
{
    if x == 0 {
        assert(is_sqrt_floor(0, 0)) by (nonlinear_arith);
    } else {
        lemma_sqrt_floor_exists(x - 1);
        let r = sqrt_floor(x - 1);
        if (r + 1) * (r + 1) <= x {
            assert(is_sqrt_floor(x, r + 1)) by (nonlinear_arith)
                requires
                    r >= 0,
                    (r + 1) * (r + 1) <= x,
                    x - 1 < (r + 1) * (r + 1),
            ;
        } else {
            assert(is_sqrt_floor(x, r));
        }
    }
}

/// The floor square root is unique.
proof fn lemma_sqrt_floor_unique(x: int, r: int)
    requires
        is_sqrt_floor(x, r),
    ensures
        r == sqrt_floor(x),
{
    let q = sqrt_floor(x);
    assert(is_sqrt_floor(x, q));
    assert(!(r < q) && !(q < r)) by (nonlinear_arith)
        requires
            is_sqrt_floor(x, r),
            is_sqrt_floor(x, q),
    ;
}

/// Largest input [`isqrt`] accepts.
pub const SQRT_IN_MAX: i128 = 1_000_000_000_000_000_000_000_000_000_000;

/// Computes the integer square root by bisection.
fn isqrt(x: i128) -> (r: i128)
    requires
        0 <= x <= SQRT_IN_MAX,
    ensures
        r == sqrt_floor(x as int),
        is_sqrt_floor(x as int, r as int),
        0 <= r <= 1_000_000_000_000_000,
{
    let mut lo: i128 = 0;
    let mut hi: i128 = 10_000_000_000_000_000;
    proof {
        assert((hi as int) * (hi as int) > SQRT_IN_MAX) by (nonlinear_arith)
            requires
                hi == 10_000_000_000_000_000i128,
                SQRT_IN_MAX == 1_000_000_000_000_000_000_000_000_000_000i128,
        ;
    }
    while lo + 1 < hi
        invariant
            0 <= lo < hi <= 10_000_000_000_000_000,
            (lo as int) * (lo as int) <= x,
            (x as int) < (hi as int) * (hi as int),
            0 <= x <= SQRT_IN_MAX,
        decreases hi - lo,
    {
        let mid = lo + (hi - lo) / 2;
        proof {
            assert(lo < mid < hi) by (nonlinear_arith)
                requires
                    lo + 1 < hi,
                    mid == lo + (hi - lo) / 2,
            ;
            assert((mid as int) * (mid as int) <= 10_000_000_000_000_000i128
                * 10_000_000_000_000_000i128 < i128::MAX) by (nonlinear_arith)
                requires
                    0 <= mid <= 10_000_000_000_000_000i128,
            ;
        }
        if mid * mid <= x {
            lo = mid;
        } else {
            hi = mid;
        }
    }
    proof {
        assert(is_sqrt_floor(x as int, lo as int));
        lemma_sqrt_floor_unique(x as int, lo as int);
        assert(lo <= 1_000_000_000_000_000) by (nonlinear_arith)
            requires
                (lo as int) * (lo as int) <= x,
                0 <= x <= SQRT_IN_MAX,
                0 <= lo,
                SQRT_IN_MAX == 1_000_000_000_000_000_000_000_000_000_000i128,
        ;
    }
    lo
}

/// Sum of squared deviations of the close mantissas of `s[from..to]` from
/// `mean`.
pub open spec fn sum_sqdev_range(s: Seq<Candle>, from: int, to: int, mean: int) -> int
    decreases to - from,
{
    if from >= to {
        0
    } else {
        let d = s[to - 1].close.m() - mean;
        sum_sqdev_range(s, from, to - 1, mean) + d * d
    }
}

/// A squared-deviation sum over well-formed closes and an in-range mean is
/// bounded by `width * MAX_PRICE * MAX_PRICE`.
proof fn lemma_sum_sqdev_bounds(s: Seq<Candle>, from: int, to: int, mean: int)
    requires
        0 <= from <= to <= s.len(),
        candles_wf(s),
        0 <= mean <= MAX_PRICE,
    ensures
        0 <= sum_sqdev_range(s, from, to, mean) <= (to - from) * (MAX_PRICE * MAX_PRICE),
    decreases to - from,
{
    if from < to {
        lemma_sum_sqdev_bounds(s, from, to - 1, mean);
        let d = s[to - 1].close.m() - mean;
        assert(0 <= d * d <= MAX_PRICE * MAX_PRICE) by (nonlinear_arith)
            requires
                -MAX_PRICE <= d <= MAX_PRICE,
        ;
        assert((to - 1 - from) * (MAX_PRICE * MAX_PRICE) + MAX_PRICE * MAX_PRICE == (to - from) * (
        MAX_PRICE * MAX_PRICE)) by (nonlinear_arith);
    }
}

/// Mean reversion against Bollinger bands: over the last `period` closes,
/// take the rounded-down mean and population variance and the integer
/// square root of the variance mantissa; `Buy` below the lower band,
/// `Sell` above the upper one, `Hold` otherwise, and `Hold` until
/// `period` bars exist.
#[derive(Clone, Copy, Debug)]
pub struct MeanReversion {
    pub period: usize,
    pub std_dev_multiplier: Fixed,
}

/// The Bollinger rule.
pub open spec fn boll_signal(period: int, k: int, s: Seq<Candle>) -> Signal {
    if s.len() < period {
        Signal::Hold
    } else {
        let n = s.len() as int;
        let sum = sum_close_range(s, n - period, n);
        let sma = sum / period;
        let variance = sum_sqdev_range(s, n - period, n, sma) / period;
        let sigma = sqrt_floor(variance);
        let band = k * sigma / (SCALE as int);
        let c = s[n - 1].close.m();
        if c < sma - band {
            Signal::Buy
        } else if c > sma + band {
            Signal::Sell
        } else {
            Signal::Hold
        }
    }
}

impl MeanReversion {
    /// Builds the strategy; the band multiplier is a non-negative value of
    /// at most 100.
    pub fn new(period: usize, std_dev_multiplier: Fixed) -> (r: Self)
        requires
            1 <= period,
            0 <= std_dev_multiplier.m() <= 100 * SCALE,
        ensures
            r.period == period,
            r.std_dev_multiplier == std_dev_multiplier,
    {
        Self { period, std_dev_multiplier }
    }
}

impl Strategy for MeanReversion {
    open spec fn wf(&self) -> bool {
        1 <= self.period && 0 <= self.std_dev_multiplier.m() <= 100 * SCALE
    }

    open spec fn spec_signal(&self, candles: Seq<Candle>) -> Signal {
        boll_signal(self.period as int, self.std_dev_multiplier.m(), candles)
    }

    fn generate_signal(&self, candles: &[Candle]) -> (s: Signal) {
        let n = candles.len();
        if n < self.period {
            return Signal::Hold;
        }
        let period = self.period;
        let from = n - period;
        let sum = sum_close(candles, from, n);
        proof {
            assert((sum as int) / (period as int) <= MAX_PRICE as int && 0 <= (sum as int) / (
            period as int)) by (nonlinear_arith)
                requires
                    0 <= sum as int <= (period as int) * (MAX_PRICE as int),
                    1 <= period as int,
            ;
        }
        let sma = sum / (period as i128);
        let mut ssd: i128 = 0;
        let mut j = from;
        proof {
            lemma_sum_sqdev_bounds(candles@, from as int, n as int, sma as int);
        }
        while j < n
            invariant
                from <= j <= n <= candles@.len(),
                n - from == period,
                period <= MAX_BARS,
                candles_wf(candles@),
                0 <= sma <= MAX_PRICE,
                ssd == sum_sqdev_range(candles@, from as int, j as int, sma as int),
                0 <= ssd <= (j - from) * (MAX_PRICE * MAX_PRICE),
            decreases n - j,
        {
            let c = candles[j];
            proof {
                assert(candles@[j as int].wf());
                let d = c.close.m() - sma as int;
                assert(0 <= d * d <= MAX_PRICE * MAX_PRICE) by (nonlinear_arith)
                    requires
                        -MAX_PRICE <= d <= MAX_PRICE,
                ;
                assert((j - from) * (MAX_PRICE * MAX_PRICE) + MAX_PRICE * MAX_PRICE == (j + 1
                    - from) * (MAX_PRICE * MAX_PRICE)) by (nonlinear_arith);
                assert((j + 1 - from) * (MAX_PRICE * MAX_PRICE) <= MAX_BARS * (MAX_PRICE
                    * MAX_PRICE)) by (nonlinear_arith)
                    requires
                        0 <= j + 1 - from <= MAX_BARS,
                ;
                assert(MAX_BARS * (MAX_PRICE * MAX_PRICE) < i128::MAX) by (nonlinear_arith);
            }
            let d = c.close.mantissa - sma;
            ssd = ssd + d * d;
            j = j + 1;
        }
        proof {
            assert((period as int) * (MAX_PRICE * MAX_PRICE) <= MAX_BARS * (MAX_PRICE * MAX_PRICE))
                by (nonlinear_arith)
                requires
                    0 <= period as int <= MAX_BARS,
            ;
            assert(0 <= (ssd as int) / (period as int) <= (MAX_PRICE as int) * (MAX_PRICE as int)) by (
            nonlinear_arith)
                requires
                    0 <= ssd as int <= (period as int) * ((MAX_PRICE as int) * (MAX_PRICE as int)),
                    1 <= period as int,
            ;
            assert(MAX_PRICE * MAX_PRICE < SQRT_IN_MAX) by (nonlinear_arith);
        }
        let variance = ssd / (period as i128);
        let sigma = isqrt(variance);
        proof {
            assert(0 <= self.std_dev_multiplier.m() * sigma <= (100 * SCALE) * (
            1_000_000_000_000_000i128 as int)) by (nonlinear_arith)
                requires
                    0 <= self.std_dev_multiplier.m() <= 100 * SCALE,
                    0 <= sigma <= 1_000_000_000_000_000i128,
            ;
            assert(0 <= self.std_dev_multiplier.m() * sigma / (SCALE as int) <= self.std_dev_multiplier.m()
                * sigma) by (nonlinear_arith)
                requires
                    0 <= self.std_dev_multiplier.m() * sigma,
                    SCALE == 1_000_000_000,
            ;
        }
        let band = self.std_dev_multiplier.mantissa * sigma / SCALE;
        let c = candles[n - 1].close.mantissa;
        proof {
            assert(candles@[n - 1].wf());
        }
        if c < sma - band {
            Signal::Buy
        } else if c > sma + band {
            Signal::Sell
        } else {
            Signal::Hold
        }
    }

    fn name(&self) -> (r: &'static str) {
        "Mean Reversion"
    }
}

} // verus!
