//! Statistics over a recorded equity history.
//!
//! Pure reductions of the equity curve and the trade counters: total return,
//! maximum drawdown and win rate, each stated as a spec function over
//! mantissa sequences and computed exactly in fixed point. Ratios that have
//! no exact decimal value round toward zero in magnitude, at nine fractional
//! digits.

use vstd::prelude::*;
use crate::fixed::{Fixed, MAX_PRICE, MAX_QTY, MAX_UNITS, SCALE};

verus! {

/// Mantissa of one hundred percent: percentages carry nine fractional
/// digits, so a ratio is scaled by `100 * SCALE`.
pub const PCT_SCALE: i128 = 100_000_000_000;

/// Running peak of the first `n` entries, starting from zero.
pub open spec fn spec_peak(h: Seq<int>, n: int) -> int
    decreases n,
{
    if n <= 0 {
        0
    } else {
        let p = spec_peak(h, n - 1);
        if h[n - 1] > p {
            h[n - 1]
        } else {
            p
        }
    }
}

/// Largest drawdown within the first `n` entries: the percentage decline
/// from the running peak, rounded down, or zero while the peak is zero.
pub open spec fn spec_dd_upto(h: Seq<int>, n: int) -> int
    decreases n,
{
    if n <= 0 {
        0
    } else {
        let prev = spec_dd_upto(h, n - 1);
        let p = spec_peak(h, n);
        let d = if p > 0 {
            (p - h[n - 1]) * PCT_SCALE / p
        } else {
            0
        };
        if d > prev {
            d
        } else {
            prev
        }
    }
}

/// Maximum drawdown of a whole history, as a percentage mantissa.
pub open spec fn spec_max_drawdown(h: Seq<int>) -> int {
    spec_dd_upto(h, h.len() as int)
}

/// Winning trades over total trades, as a percentage mantissa rounded
/// down; zero when no trade happened.
pub open spec fn spec_win_rate(wins: int, trades: int) -> int {
    if trades > 0 {
        wins * PCT_SCALE / trades
    } else {
        0
    }
}

/// Relative gain of `fin` over `initial`, as a percentage mantissa; an
/// inexact ratio rounds toward zero in magnitude.
pub open spec fn spec_total_return(initial: int, fin: int) -> int {
    if fin >= initial {
        (fin - initial) * PCT_SCALE / initial
    } else {
        -((initial - fin) * PCT_SCALE / initial)
    }
}

/// Peaks of non-negative histories are non-negative and dominate the
/// current entry.
proof fn lemma_peak_bounds(h: Seq<int>, n: int)
    requires
        0 <= n <= h.len(),
        forall|i: int| 0 <= i < h.len() ==> 0 <= #[trigger] h[i],
    ensures
        0 <= spec_peak(h, n),
        n > 0 ==> h[n - 1] <= spec_peak(h, n),
    decreases n,
{
    if n > 0 {
        lemma_peak_bounds(h, n - 1);
    }
}

/// On a non-negative history the maximum drawdown is a percentage between
/// zero and one hundred.
pub proof fn lemma_drawdown_in_range(h: Seq<int>, n: int)
    requires
        0 <= n <= h.len(),
        forall|i: int| 0 <= i < h.len() ==> 0 <= #[trigger] h[i],
    ensures
        0 <= spec_dd_upto(h, n) <= 100 * SCALE,
    decreases n,
{
    if n > 0 {
        lemma_drawdown_in_range(h, n - 1);
        lemma_peak_bounds(h, n);
        let p = spec_peak(h, n);
        if p > 0 {
            let e = h[n - 1];
            assert(0 <= (p - e) * PCT_SCALE <= p * PCT_SCALE) by (nonlinear_arith)
                requires
                    0 <= e <= p,
                    PCT_SCALE == 100_000_000_000i128,
            ;
            assert(0 <= (p - e) * PCT_SCALE / p <= PCT_SCALE) by (nonlinear_arith)
                requires
                    0 < p,
                    0 <= (p - e) * PCT_SCALE <= p * PCT_SCALE,
            ;
            assert(PCT_SCALE == 100 * SCALE);
        }
    }
}

/// Maximum drawdown of an equity history: the largest percentage decline
/// from the running peak, with a zero peak contributing no drawdown.
pub fn max_drawdown(history: &Vec<Fixed>) -> (r: Fixed)
    requires
        forall|i: int|
            0 <= i < history@.len() ==> 0 <= (#[trigger] history@[i]).m() <= MAX_UNITS,
    ensures
        r.m() == spec_max_drawdown(history@.map_values(|f: Fixed| f.m())),
        0 <= r.m() <= 100 * SCALE,
{
    let ghost h = history@.map_values(|f: Fixed| f.m());
    proof {
        assert(forall|i: int| 0 <= i < h.len() ==> 0 <= #[trigger] h[i] <= MAX_UNITS);
        lemma_drawdown_in_range(h, h.len() as int);
    }
    let n = history.len();
    let mut peak: i128 = 0;
    let mut dd: i128 = 0;
    let mut k: usize = 0;
    while k < n
        invariant
            0 <= k <= n,
            n == history@.len(),
            h == history@.map_values(|f: Fixed| f.m()),
            forall|i: int|
                0 <= i < history@.len() ==> 0 <= (#[trigger] history@[i]).m() <= MAX_UNITS,
            peak == spec_peak(h, k as int),
            dd == spec_dd_upto(h, k as int),
            0 <= peak <= MAX_UNITS,
            0 <= dd <= PCT_SCALE,
        decreases n - k,
    {
        let e = history[k].mantissa;
        if e > peak {
            peak = e;
        }
        proof {
            assert(h[k as int] == history@[k as int].m());
            assert(peak == spec_peak(h, k + 1));
            lemma_peak_bounds(h, k + 1);
            if peak > 0 {
                assert(0 <= ((peak as int) - (e as int)) * (PCT_SCALE as int) <= (peak as int) * (
                PCT_SCALE as int)) by (nonlinear_arith)
                    requires
                        0 <= (peak as int) - (e as int) <= peak as int,
                        PCT_SCALE == 100_000_000_000i128,
                ;
                assert((peak as int) * (PCT_SCALE as int) <= (MAX_UNITS as int) * (
                PCT_SCALE as int)) by (nonlinear_arith)
                    requires
                        0 <= peak as int <= MAX_UNITS as int,
                ;
                assert(0 <= ((peak as int) - (e as int)) * (PCT_SCALE as int) / (peak as int) <= (
                PCT_SCALE as int)) by (nonlinear_arith)
                    requires
                        0 < peak as int,
                        0 <= ((peak as int) - (e as int)) * (PCT_SCALE as int) <= (peak as int) * (
                        PCT_SCALE as int),
                ;
            }
        }
        if peak > 0 {
            let d = (peak - e) * PCT_SCALE / peak;
            if d > dd {
                dd = d;
            }
        }
        k = k + 1;
    }
    proof {
        assert(h.len() == n as int);
    }
    Fixed { mantissa: dd }
}

/// Win rate of the trade counters, as a percentage.
pub fn win_rate(wins: usize, trades: usize) -> (r: Fixed)
    requires
        wins <= trades,
    ensures
        r.m() == spec_win_rate(wins as int, trades as int),
        0 <= r.m() <= 100 * SCALE,
{
    if trades == 0 {
        return Fixed { mantissa: 0 };
    }
    proof {
        assert(0 <= (wins as int) * PCT_SCALE <= (trades as int) * PCT_SCALE) by (nonlinear_arith)
            requires
                0 <= wins as int <= trades as int,
                PCT_SCALE == 100_000_000_000i128,
        ;
        assert((trades as int) * PCT_SCALE < i128::MAX) by (nonlinear_arith)
            requires
                trades as int <= usize::MAX,
                PCT_SCALE == 100_000_000_000i128,
        ;
        assert(0 <= (wins as int) * PCT_SCALE / (trades as int) <= PCT_SCALE) by (nonlinear_arith)
            requires
                0 < trades as int,
                0 <= (wins as int) * PCT_SCALE <= (trades as int) * PCT_SCALE,
        ;
        assert(PCT_SCALE == 100 * SCALE);
    }
    let r = (wins as i128) * PCT_SCALE / (trades as i128);
    Fixed { mantissa: r }
}

/// Total return of `fin` over `initial`, as a percentage.
pub fn total_return(initial: Fixed, fin: Fixed) -> (r: Fixed)
    requires
        0 < initial.m() <= MAX_UNITS,
        0 <= fin.m() <= MAX_UNITS + MAX_QTY * MAX_PRICE,
    ensures
        r.m() == spec_total_return(initial.m(), fin.m()),
{
    proof {
        assert(0 <= (MAX_UNITS + MAX_QTY * MAX_PRICE) * PCT_SCALE < i128::MAX) by (nonlinear_arith);
        if fin.m() >= initial.m() {
            assert(0 <= (fin.m() - initial.m()) * PCT_SCALE <= (MAX_UNITS + MAX_QTY * MAX_PRICE)
                * PCT_SCALE) by (nonlinear_arith)
                requires
                    0 <= fin.m() - initial.m() <= MAX_UNITS + MAX_QTY * MAX_PRICE,
                    PCT_SCALE == 100_000_000_000i128,
            ;
            assert((fin.m() - initial.m()) * PCT_SCALE / initial.m() >= 0) by (nonlinear_arith)
                requires
                    0 <= (fin.m() - initial.m()) * PCT_SCALE,
                    0 < initial.m(),
            ;
        } else {
            assert(0 <= (initial.m() - fin.m()) * PCT_SCALE <= MAX_UNITS * PCT_SCALE) by (
            nonlinear_arith)
                requires
                    0 <= initial.m() - fin.m() <= MAX_UNITS,
                    PCT_SCALE == 100_000_000_000i128,
            ;
            assert(0 <= (initial.m() - fin.m()) * PCT_SCALE / initial.m() <= MAX_UNITS * PCT_SCALE)
                by (nonlinear_arith)
                requires
                    0 < initial.m(),
                    0 <= (initial.m() - fin.m()) * PCT_SCALE <= MAX_UNITS * PCT_SCALE,
            ;
        }
    }
    if fin.mantissa >= initial.mantissa {
        Fixed { mantissa: (fin.mantissa - initial.mantissa) * PCT_SCALE / initial.mantissa }
    } else {
        Fixed { mantissa: -((initial.mantissa - fin.mantissa) * PCT_SCALE / initial.mantissa) }
    }
}

} // verus!
