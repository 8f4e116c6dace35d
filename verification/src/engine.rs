//! The backtest engine: execution model, bar loop and result assembly.
//!
//! The engine owns cash, at most one open position, the equity history and
//! the trade counters. Its whole behaviour is stated against a mathematical
//! model ([`EngineModel`]): every buy, sell and mark-to-market is a spec
//! function on that model, the bar loop is their fold over the series, and
//! the executable code is proved equal to the fold.
//!
//! Money never leaves the mantissa grid: a buy spends
//! `fill * quantity * (1 + commission)` exactly, a sell credits
//! `fill * quantity * (1 - commission)` exactly, with products rounded down
//! to the grid where an exact value does not exist. A run fails only when
//! an amount leaves the machine range ([`EngineError::Overflow`]); rejected
//! orders are silent no-ops, never errors.

use vstd::prelude::*;
use crate::data::{candles_wf, Candle, StockData};
use crate::fixed::{Fixed, MAX_PRICE, MAX_QTY, MAX_UNITS, MIN_PRICE, SCALE};
use crate::stats::{
    max_drawdown, spec_max_drawdown, spec_total_return, spec_win_rate, total_return, win_rate,
};
use crate::strategy::{Signal, Strategy};

verus! {

/// Engine configuration, immutable for the duration of a run.
#[derive(Clone, Copy, Debug)]
pub struct BacktestConfig {
    /// Cash the engine starts with.
    pub initial_capital: Fixed,
    /// Commission rate per side, a fraction of notional in `[0, 1)`.
    pub commission_rate: Fixed,
    /// Slippage rate, a directional price penalty in `[0, 1)`.
    pub slippage: Fixed,
    /// Largest number of concurrently open positions, at least 1.
    pub max_positions: usize,
    /// Fraction of total equity one position may take, in `(0, 1]`.
    pub max_position_size: Fixed,
}

/// Why a configuration was rejected.
#[derive(Clone, Copy, Debug, PartialEq, Eq, Structural)]
pub enum ConfigError {
    /// The initial capital is not positive or beyond the machine range.
    InvalidCapital,
    /// The commission rate is outside `[0, 1)`.
    InvalidCommission,
    /// The slippage rate is outside `[0, 1)`.
    InvalidSlippage,
    /// The position cap is zero.
    InvalidMaxPositions,
    /// The position size fraction is outside `(0, 1]`.
    InvalidPositionSize,
}

impl BacktestConfig {
    /// A configuration the engine accepts.
    pub open spec fn wf(self) -> bool {
        &&& 0 < self.initial_capital.m() <= MAX_UNITS
        &&& 0 <= self.commission_rate.m() < SCALE
        &&& 0 <= self.slippage.m() < SCALE
        &&& 1 <= self.max_positions
        &&& 0 < self.max_position_size.m() <= SCALE
    }

    /// Builds a configuration, rejecting each out-of-range field at
    /// construction; a rejection names the first offending field.
    pub fn new(
        initial_capital: Fixed,
        commission_rate: Fixed,
        slippage: Fixed,
        max_positions: usize,
        max_position_size: Fixed,
    ) -> (r: Result<BacktestConfig, ConfigError>)
        ensures
            r matches Ok(c) ==> c == (BacktestConfig {
                initial_capital,
                commission_rate,
                slippage,
                max_positions,
                max_position_size,
            }) && c.wf(),
            r is Err ==> !(BacktestConfig {
                initial_capital,
                commission_rate,
                slippage,
                max_positions,
                max_position_size,
            }).wf(),
            r matches Err(e) ==> match e {
                ConfigError::InvalidCapital => !(0 < initial_capital.m() <= MAX_UNITS),
                ConfigError::InvalidCommission => !(0 <= commission_rate.m() < SCALE),
                ConfigError::InvalidSlippage => !(0 <= slippage.m() < SCALE),
                ConfigError::InvalidMaxPositions => max_positions < 1,
                ConfigError::InvalidPositionSize => !(0 < max_position_size.m() <= SCALE),
            },
    {
        if !(0 < initial_capital.mantissa && initial_capital.mantissa <= MAX_UNITS) {
            Err(ConfigError::InvalidCapital)
        } else if !(0 <= commission_rate.mantissa && commission_rate.mantissa < SCALE) {
            Err(ConfigError::InvalidCommission)
        } else if !(0 <= slippage.mantissa && slippage.mantissa < SCALE) {
            Err(ConfigError::InvalidSlippage)
        } else if max_positions < 1 {
            Err(ConfigError::InvalidMaxPositions)
        } else if !(0 < max_position_size.mantissa && max_position_size.mantissa <= SCALE) {
            Err(ConfigError::InvalidPositionSize)
        } else {
            Ok(
                BacktestConfig {
                    initial_capital,
                    commission_rate,
                    slippage,
                    max_positions,
                    max_position_size,
                },
            )
        }
    }
}

impl Default for BacktestConfig {
    /// Ten million units of capital, 0.015% commission, 0.1% slippage,
    /// ten position slots, 10% of equity per position.
    fn default() -> (r: Self)
        ensures
            r == (BacktestConfig {
                initial_capital: Fixed { mantissa: 10_000_000_000_000_000 },
                commission_rate: Fixed { mantissa: 150_000 },
                slippage: Fixed { mantissa: 1_000_000 },
                max_positions: 10usize,
                max_position_size: Fixed { mantissa: 100_000_000 },
            }),
            r.wf(),
    {
        BacktestConfig {
            initial_capital: Fixed { mantissa: 10_000_000_000_000_000 },
            commission_rate: Fixed { mantissa: 150_000 },
            slippage: Fixed { mantissa: 1_000_000 },
            max_positions: 10,
            max_position_size: Fixed { mantissa: 100_000_000 },
        }
    }
}

/// Mathematical view of an open position.
pub ghost struct PositionModel {
    pub qty: int,
    pub avg: int,
    pub cur: int,
}

/// Bounds every stored position obeys.
pub open spec fn pos_model_wf(p: PositionModel) -> bool {
    &&& 1 <= p.qty <= MAX_QTY
    &&& MIN_PRICE <= p.avg <= 2 * MAX_PRICE
    &&& MIN_PRICE <= p.cur <= MAX_PRICE
}

/// An open holding in the traded instrument. It exists only while its
/// quantity is positive; the engine is its only mutator.
#[derive(Clone, Debug)]
pub struct Position {
    pub symbol: String,
    pub quantity: i64,
    pub avg_price: Fixed,
    pub current_price: Fixed,
}

impl Position {
    /// The position as a mathematical value.
    pub open spec fn model(self) -> PositionModel {
        PositionModel {
            qty: self.quantity as int,
            avg: self.avg_price.m(),
            cur: self.current_price.m(),
        }
    }

    /// Bounds every stored position obeys.
    pub open spec fn wf(self) -> bool {
        pos_model_wf(self.model())
    }

    /// Quantity times the last marked price.
    pub fn market_value(&self) -> (r: Fixed)
        requires
            self.wf(),
        ensures
            r.m() == self.model().qty * self.model().cur,
            0 <= r.m() <= MAX_QTY * MAX_PRICE,
    {
        proof {
            assert(0 <= self.current_price.m() * (self.quantity as int) <= MAX_QTY * MAX_PRICE
                && self.current_price.m() * (self.quantity as int) == (self.quantity as int)
                * self.current_price.m()) by (nonlinear_arith)
                requires
                    1 <= self.quantity as int <= MAX_QTY,
                    0 <= self.current_price.m() <= MAX_PRICE,
            ;
        }
        Fixed { mantissa: self.current_price.mantissa * (self.quantity as i128) }
    }

    /// Gain or loss against the average entry price, in money.
    pub fn unrealized_pnl(&self) -> (r: Fixed)
        requires
            self.wf(),
        ensures
            r.m() == (self.model().cur - self.model().avg) * self.model().qty,
    {
        proof {
            assert(-(2 * MAX_PRICE * MAX_QTY) <= (self.current_price.m() - self.avg_price.m()) * (
            self.quantity as int) <= 2 * MAX_PRICE * MAX_QTY) by (nonlinear_arith)
                requires
                    1 <= self.quantity as int <= MAX_QTY,
                    -(2 * MAX_PRICE) <= self.current_price.m() - self.avg_price.m() <= 2
                        * MAX_PRICE,
            ;
        }
        Fixed {
            mantissa: (self.current_price.mantissa - self.avg_price.mantissa) * (
            self.quantity as i128),
        }
    }

    /// Gain or loss against the average entry price, as a percentage of
    /// it; an inexact ratio rounds toward zero in magnitude.
    pub fn unrealized_pnl_pct(&self) -> (r: Fixed)
        requires
            self.wf(),
        ensures
            r.m() == spec_total_return(self.model().avg, self.model().cur),
    {
        total_return(self.avg_price, self.current_price)
    }
}

/// Mathematical view of the whole engine state.
#[verifier::ext_equal]
pub ghost struct EngineModel {
    pub cash: int,
    pub pos: Option<PositionModel>,
    pub trades: int,
    pub wins: int,
    pub hist: Seq<int>,
}

/// Bounds every reachable engine state obeys.
pub open spec fn st_wf(st: EngineModel) -> bool {
    &&& 0 <= st.cash <= MAX_UNITS
    &&& match st.pos {
        Option::None => true,
        Option::Some(p) => pos_model_wf(p),
    }
    &&& 0 <= st.wins <= st.trades
    &&& forall|i: int| 0 <= i < st.hist.len() ==> 0 <= #[trigger] st.hist[i] <= MAX_UNITS
}

/// Number of open positions: zero or one, by construction.
pub open spec fn position_count(st: EngineModel) -> int {
    if st.pos is Some {
        1
    } else {
        0
    }
}

/// A single-instrument engine never holds more than one position.
pub proof fn lemma_at_most_one_position(st: EngineModel)
    ensures
        0 <= position_count(st) <= 1,
{
}

/// Cash plus the marked value of the open position.
pub open spec fn spec_equity(st: EngineModel) -> int {
    st.cash + match st.pos {
        Option::None => 0int,
        Option::Some(p) => p.qty * p.cur,
    }
}

/// Marking to market: the open position, if any, takes `price` as its
/// current price; nothing else moves.
pub open spec fn spec_mark(st: EngineModel, price: int) -> EngineModel {
    match st.pos {
        Option::None => st,
        Option::Some(p) => EngineModel {
            pos: Option::Some(PositionModel { cur: price, ..p }),
            ..st
        },
    }
}

/// The buy rule. A no-op when a position is already open, when the
/// position cap is zero, when the computed quantity is zero, or when the
/// total cost would exceed the available cash; otherwise cash drops by
/// `fill * quantity * (1 + commission)` and a position opens at the fill
/// price.
pub open spec fn spec_buy(cfg: BacktestConfig, st: EngineModel, price: int) -> EngineModel {
    if st.pos is Some {
        st
    } else if cfg.max_positions < 1 {
        st
    } else {
        let invest = spec_equity(st) * cfg.max_position_size.m() / (SCALE as int);
        let fill = price * ((SCALE as int) + cfg.slippage.m()) / (SCALE as int);
        let qty = invest / fill;
        if qty <= 0 {
            st
        } else {
            let cost = fill * qty;
            let commission = cost * cfg.commission_rate.m() / (SCALE as int);
            let total = cost + commission;
            if total > st.cash {
                st
            } else {
                EngineModel {
                    cash: st.cash - total,
                    pos: Option::Some(PositionModel { qty, avg: fill, cur: price }),
                    trades: st.trades + 1,
                    wins: st.wins,
                    hist: st.hist,
                }
            }
        }
    }
}

/// The sell rule. A no-op when no position is open; otherwise the whole
/// position closes at `fill = price * (1 - slippage)`, cash grows by
/// `fill * quantity * (1 - commission)`, and the trade counts as winning
/// exactly when the fill beats the average entry price.
pub open spec fn spec_sell(cfg: BacktestConfig, st: EngineModel, price: int) -> EngineModel {
    match st.pos {
        Option::None => st,
        Option::Some(p) => {
            let fill = price * ((SCALE as int) - cfg.slippage.m()) / (SCALE as int);
            let proceeds = fill * p.qty;
            let commission = proceeds * cfg.commission_rate.m() / (SCALE as int);
            let net = proceeds - commission;
            EngineModel {
                cash: st.cash + net,
                pos: Option::None,
                trades: st.trades + 1,
                wins: st.wins + if fill > p.avg {
                    1int
                } else {
                    0int
                },
                hist: st.hist,
            }
        },
    }
}

/// Dispatches one signal at the given reference price.
pub open spec fn spec_apply(
    cfg: BacktestConfig,
    st: EngineModel,
    sig: Signal,
    price: int,
) -> EngineModel {
    match sig {
        Signal::Buy => spec_buy(cfg, st, price),
        Signal::Sell => spec_sell(cfg, st, price),
        Signal::Hold => st,
    }
}

/// One bar: mark to market at the close, ask the strategy for a signal on
/// the history up to this bar, apply it, and append the resulting equity.
pub open spec fn spec_step<S: Strategy>(
    cfg: BacktestConfig,
    st: EngineModel,
    candles: Seq<Candle>,
    i: int,
    strat: S,
) -> EngineModel {
    let price = candles[i].close.m();
    let st1 = spec_mark(st, price);
    let st2 = spec_apply(cfg, st1, strat.spec_signal(candles.take(i + 1)), price);
    EngineModel { hist: st2.hist.push(spec_equity(st2)), ..st2 }
}

/// The bar stays within the machine range: neither the cash after the
/// action nor the recorded equity exceeds [`MAX_UNITS`].
pub open spec fn spec_step_ok<S: Strategy>(
    cfg: BacktestConfig,
    st: EngineModel,
    candles: Seq<Candle>,
    i: int,
    strat: S,
) -> bool {
    let price = candles[i].close.m();
    let st1 = spec_mark(st, price);
    let st2 = spec_apply(cfg, st1, strat.spec_signal(candles.take(i + 1)), price);
    st2.cash <= MAX_UNITS && spec_equity(st2) <= MAX_UNITS
}

/// The engine state after the first `n` bars.
pub open spec fn spec_run<S: Strategy>(
    cfg: BacktestConfig,
    st0: EngineModel,
    candles: Seq<Candle>,
    strat: S,
    n: int,
) -> EngineModel
    decreases n,
{
    if n <= 0 {
        st0
    } else {
        spec_step(cfg, spec_run(cfg, st0, candles, strat, n - 1), candles, n - 1, strat)
    }
}

/// Every one of the first `n` bars stays within the machine range.
pub open spec fn spec_run_ok<S: Strategy>(
    cfg: BacktestConfig,
    st0: EngineModel,
    candles: Seq<Candle>,
    strat: S,
    n: int,
) -> bool
    decreases n,
{
    n <= 0 || (spec_run_ok(cfg, st0, candles, strat, n - 1) && spec_step_ok(
        cfg,
        spec_run(cfg, st0, candles, strat, n - 1),
        candles,
        n - 1,
        strat,
    ))
}

/// Once a bar leaves the machine range, every longer run does too.
pub proof fn lemma_run_ok_monotone<S: Strategy>(
    cfg: BacktestConfig,
    st0: EngineModel,
    candles: Seq<Candle>,
    strat: S,
    m: int,
    n: int,
)
    requires
        0 <= m <= n,
        !spec_run_ok(cfg, st0, candles, strat, m),
    ensures
        !spec_run_ok(cfg, st0, candles, strat, n),
    decreases n - m,
{
    if m < n {
        lemma_run_ok_monotone(cfg, st0, candles, strat, m, n - 1);
    }
}

/// One in-range bar preserves well-formedness; in particular cash never
/// goes negative.
pub proof fn lemma_step_preserves_wf<S: Strategy>(
    cfg: BacktestConfig,
    st: EngineModel,
    candles: Seq<Candle>,
    i: int,
    strat: S,
)
    requires
        cfg.wf(),
        st_wf(st),
        candles_wf(candles),
        0 <= i < candles.len(),
        spec_step_ok(cfg, st, candles, i, strat),
    ensures
        st_wf(spec_step(cfg, st, candles, i, strat)),
        spec_step(cfg, st, candles, i, strat).cash >= 0,
        spec_step(cfg, st, candles, i, strat).hist == st.hist.push(
            spec_equity(spec_step_state(cfg, st, candles, i, strat)),
        ),
        spec_step(cfg, st, candles, i, strat).trades <= st.trades + 1,
        spec_step(cfg, st, candles, i, strat).hist.len() == st.hist.len() + 1,
{
    let price = candles[i].close.m();
    assert(candles[i].wf());
    let st1 = spec_mark(st, price);
    assert(st_wf(st1));
    let sig = strat.spec_signal(candles.take(i + 1));
    let st2 = spec_apply(cfg, st1, sig, price);
    lemma_apply_preserves_wf(cfg, st1, sig, price);
    assert(spec_equity(st2) >= 0) by {
        lemma_equity_nonneg(st2);
    }
}

/// The state of one bar just before its equity is recorded.
pub open spec fn spec_step_state<S: Strategy>(
    cfg: BacktestConfig,
    st: EngineModel,
    candles: Seq<Candle>,
    i: int,
    strat: S,
) -> EngineModel {
    let price = candles[i].close.m();
    let st1 = spec_mark(st, price);
    spec_apply(cfg, st1, strat.spec_signal(candles.take(i + 1)), price)
}

/// Equity of a well-formed state is non-negative.
pub proof fn lemma_equity_nonneg(st: EngineModel)
    requires
        st_wf(st),
    ensures
        spec_equity(st) >= 0,
        spec_equity(st) <= MAX_UNITS + MAX_QTY * MAX_PRICE,
{
    match st.pos {
        Option::None => {},
        Option::Some(p) => {
            assert(0 <= p.qty * p.cur <= MAX_QTY * MAX_PRICE) by (nonlinear_arith)
                requires
                    1 <= p.qty <= MAX_QTY,
                    0 <= p.cur <= MAX_PRICE,
            ;
        },
    }
}

/// Applying a signal to a well-formed state with an in-range price keeps
/// the state well-formed whenever the resulting cash is in range; a buy
/// never overdraws.
pub proof fn lemma_apply_preserves_wf(cfg: BacktestConfig, st: EngineModel, sig: Signal, price: int)
    requires
        cfg.wf(),
        st_wf(st),
        MIN_PRICE <= price <= MAX_PRICE,
        spec_apply(cfg, st, sig, price).cash <= MAX_UNITS,
    ensures
        st_wf(spec_apply(cfg, st, sig, price)),
        spec_apply(cfg, st, sig, price).cash >= 0,
        spec_apply(cfg, st, sig, price).hist == st.hist,
{
    match sig {
        Signal::Buy => {
            lemma_buy_preserves_wf(cfg, st, price);
        },
        Signal::Sell => {
            lemma_sell_preserves_wf(cfg, st, price);
        },
        Signal::Hold => {},
    }
}

/// The buy rule preserves well-formedness and never overdraws cash.
pub proof fn lemma_buy_preserves_wf(cfg: BacktestConfig, st: EngineModel, price: int)
    requires
        cfg.wf(),
        st_wf(st),
        MIN_PRICE <= price <= MAX_PRICE,
    ensures
        st_wf(spec_buy(cfg, st, price)),
        spec_buy(cfg, st, price).cash >= 0,
        spec_buy(cfg, st, price).cash <= st.cash,
        spec_buy(cfg, st, price).hist == st.hist,
{
    if st.pos is None && cfg.max_positions >= 1 {
        let equity = spec_equity(st);
        assert(equity == st.cash);
        let invest = equity * cfg.max_position_size.m() / (SCALE as int);
        assert(0 <= invest <= MAX_UNITS) by (nonlinear_arith)
            requires
                0 <= equity <= MAX_UNITS,
                0 < cfg.max_position_size.m() <= SCALE,
                invest == equity * cfg.max_position_size.m() / (SCALE as int),
                SCALE == 1_000_000_000i128,
        ;
        let fill = price * ((SCALE as int) + cfg.slippage.m()) / (SCALE as int);
        assert(price <= fill <= 2 * price) by (nonlinear_arith)
            requires
                MIN_PRICE <= price <= MAX_PRICE,
                0 <= cfg.slippage.m() < SCALE,
                fill == price * ((SCALE as int) + cfg.slippage.m()) / (SCALE as int),
                SCALE == 1_000_000_000i128,
        ;
        let qty = invest / fill;
        assert(0 <= qty <= MAX_QTY) by (nonlinear_arith)
            requires
                0 <= invest <= MAX_UNITS,
                fill >= MIN_PRICE,
                qty == invest / fill,
                MIN_PRICE == 1_000_000i128,
                MAX_UNITS == 1_000_000_000_000_000_000i128,
                MAX_QTY == 1_000_000_000_000i128,
        ;
        if qty > 0 {
            let cost = fill * qty;
            assert(cost >= 0) by (nonlinear_arith)
                requires
                    fill >= 0,
                    qty > 0,
                    cost == fill * qty,
            ;
            let commission = cost * cfg.commission_rate.m() / (SCALE as int);
            assert(commission >= 0) by (nonlinear_arith)
                requires
                    cost >= 0,
                    cfg.commission_rate.m() >= 0,
                    commission == cost * cfg.commission_rate.m() / (SCALE as int),
                    SCALE == 1_000_000_000i128,
            ;
            let total = cost + commission;
            if total <= st.cash {
                assert(st_wf(spec_buy(cfg, st, price)));
            }
        }
    }
}

/// The sell rule preserves well-formedness whenever the credited cash is
/// in range, and never debits cash.
pub proof fn lemma_sell_preserves_wf(cfg: BacktestConfig, st: EngineModel, price: int)
    requires
        cfg.wf(),
        st_wf(st),
        MIN_PRICE <= price <= MAX_PRICE,
        spec_sell(cfg, st, price).cash <= MAX_UNITS,
    ensures
        st_wf(spec_sell(cfg, st, price)),
        spec_sell(cfg, st, price).cash >= st.cash,
        spec_sell(cfg, st, price).hist == st.hist,
{
    match st.pos {
        Option::None => {},
        Option::Some(p) => {
            let fill = price * ((SCALE as int) - cfg.slippage.m()) / (SCALE as int);
            assert(0 <= fill <= price) by (nonlinear_arith)
                requires
                    MIN_PRICE <= price <= MAX_PRICE,
                    0 <= cfg.slippage.m() < SCALE,
                    fill == price * ((SCALE as int) - cfg.slippage.m()) / (SCALE as int),
                    SCALE == 1_000_000_000i128,
            ;
            let proceeds = fill * p.qty;
            assert(0 <= proceeds <= MAX_PRICE * MAX_QTY) by (nonlinear_arith)
                requires
                    0 <= fill <= MAX_PRICE,
                    1 <= p.qty <= MAX_QTY,
                    proceeds == fill * p.qty,
            ;
            let commission = proceeds * cfg.commission_rate.m() / (SCALE as int);
            assert(0 <= commission <= proceeds) by (nonlinear_arith)
                requires
                    0 <= proceeds,
                    0 <= cfg.commission_rate.m() < SCALE,
                    commission == proceeds * cfg.commission_rate.m() / (SCALE as int),
                    SCALE == 1_000_000_000i128,
            ;
        },
    }
}

/// A run of `n` in-range bars preserves well-formedness: in particular,
/// cash is non-negative after every bar, and at most one position is open
/// at any time.
pub proof fn lemma_run_preserves_wf<S: Strategy>(
    cfg: BacktestConfig,
    st0: EngineModel,
    candles: Seq<Candle>,
    strat: S,
    n: int,
)
    requires
        cfg.wf(),
        st_wf(st0),
        candles_wf(candles),
        0 <= n <= candles.len(),
        spec_run_ok(cfg, st0, candles, strat, n),
    ensures
        st_wf(spec_run(cfg, st0, candles, strat, n)),
        spec_run(cfg, st0, candles, strat, n).cash >= 0,
        spec_run(cfg, st0, candles, strat, n).trades <= st0.trades + n,
        spec_run(cfg, st0, candles, strat, n).hist.len() == st0.hist.len() + n,
    decreases n,
{
    if n > 0 {
        lemma_run_preserves_wf(cfg, st0, candles, strat, n - 1);
        lemma_step_preserves_wf(cfg, spec_run(cfg, st0, candles, strat, n - 1), candles, n - 1, strat);
    }
}

/// A series of all-`Hold` signals moves no money: cash stays, no position
/// opens, no trade happens, and each bar records the cash itself as
/// equity.
pub proof fn lemma_all_hold_run<S: Strategy>(
    cfg: BacktestConfig,
    st0: EngineModel,
    candles: Seq<Candle>,
    strat: S,
    n: int,
)
    requires
        cfg.wf(),
        st_wf(st0),
        candles_wf(candles),
        st0.pos is None,
        0 <= n <= candles.len(),
        forall|i: int|
            0 <= i < n ==> strat.spec_signal(#[trigger] candles.take(i + 1)) == Signal::Hold,
    ensures
        spec_run_ok(cfg, st0, candles, strat, n),
        spec_run(cfg, st0, candles, strat, n) == (EngineModel {
            hist: st0.hist + Seq::new(n as nat, |i: int| st0.cash),
            ..st0
        }),
    decreases n,
{
    if n == 0 {
        assert(st0.hist + Seq::new(0, |i: int| st0.cash) =~= st0.hist);
        assert(spec_run(cfg, st0, candles, strat, 0) =~= (EngineModel {
            hist: st0.hist + Seq::new(0, |i: int| st0.cash),
            ..st0
        }));
    } else {
        lemma_all_hold_run(cfg, st0, candles, strat, n - 1);
        let prev = spec_run(cfg, st0, candles, strat, n - 1);
        assert(strat.spec_signal(candles.take(n)) == Signal::Hold);
        assert(prev.pos is None);
        assert(spec_equity(prev) == prev.cash);
        assert(spec_run(cfg, st0, candles, strat, n).hist =~= st0.hist + Seq::new(
            n as nat,
            |i: int| st0.cash,
        ));
        assert(spec_run(cfg, st0, candles, strat, n) =~= (EngineModel {
            hist: st0.hist + Seq::new(n as nat, |i: int| st0.cash),
            ..st0
        }));
    }
}

/// Why a run failed.
#[derive(Clone, Copy, Debug, PartialEq, Eq, Structural)]
pub enum EngineError {
    /// A money amount left the machine range during the run.
    Overflow,
}

/// The result summary of one run; ratios that need a square root or a
/// power (Sharpe, CAGR) are derived by the caller from the exact equity
/// curve recorded here.
#[derive(Clone, Debug)]
pub struct BacktestResult {
    /// Total return over the initial capital, as a percentage.
    pub total_return: Fixed,
    /// Maximum drawdown of the equity curve, as a percentage.
    pub max_drawdown: Fixed,
    /// Winning trades over total trades, as a percentage.
    pub win_rate: Fixed,
    /// Number of realized trades, buys and sells both.
    pub total_trades: usize,
    /// Equity after each bar, in order.
    pub equity_curve: Vec<Fixed>,
}

/// The single-instrument backtest engine.
pub struct BacktestEngine {
    config: BacktestConfig,
    cash: Fixed,
    position: Option<Position>,
    equity_history: Vec<Fixed>,
    trade_count: usize,
    winning_trades: usize,
}

impl BacktestEngine {
    /// The engine state as a mathematical value.
    pub closed spec fn model(&self) -> EngineModel {
        EngineModel {
            cash: self.cash.m(),
            pos: match self.position {
                Option::None => Option::None,
                Option::Some(p) => Option::Some(p.model()),
            },
            trades: self.trade_count as int,
            wins: self.winning_trades as int,
            hist: self.equity_history@.map_values(|f: Fixed| f.m()),
        }
    }

    /// The configuration the engine was built with.
    pub closed spec fn spec_config(&self) -> BacktestConfig {
        self.config
    }

    /// A reachable engine: valid configuration, in-range state.
    pub open spec fn wf(&self) -> bool {
        self.spec_config().wf() && st_wf(self.model())
    }

    /// A fresh engine: full cash, no position, no history, no trades.
    pub fn new(config: BacktestConfig) -> (r: Self)
        requires
            config.wf(),
        ensures
            r.spec_config() == config,
            r.model() == (EngineModel {
                cash: config.initial_capital.m(),
                pos: Option::None,
                trades: 0,
                wins: 0,
                hist: Seq::empty(),
            }),
            r.wf(),
    {
        let initial_cash = config.initial_capital;
        let r = BacktestEngine {
            config,
            cash: initial_cash,
            position: Option::None,
            equity_history: Vec::new(),
            trade_count: 0,
            winning_trades: 0,
        };
        proof {
            assert(r.model().hist =~= Seq::<int>::empty());
            assert(r.model() =~= (EngineModel {
                cash: config.initial_capital.m(),
                pos: Option::None,
                trades: 0,
                wins: 0,
                hist: Seq::empty(),
            }));
        }
        r
    }

    /// Cash currently held.
    pub fn cash(&self) -> (r: Fixed)
        ensures
            r.m() == self.model().cash,
    {
        self.cash
    }

    /// Number of realized trades so far.
    pub fn trade_count(&self) -> (r: usize)
        ensures
            r as int == self.model().trades,
    {
        self.trade_count
    }

    /// Number of winning sells so far.
    pub fn winning_trades(&self) -> (r: usize)
        ensures
            r as int == self.model().wins,
    {
        self.winning_trades
    }

    /// `true` while a position is open.
    pub fn has_position(&self) -> (r: bool)
        ensures
            r == (self.model().pos is Some),
    {
        self.position.is_some()
    }

    /// Quantity of the open position, if one exists.
    pub fn position_quantity(&self) -> (r: Option<i64>)
        ensures
            match r {
                Option::Some(q) => self.model().pos matches Option::Some(p) && p.qty == q as int,
                Option::None => self.model().pos is None,
            },
    {
        match &self.position {
            Option::None => Option::None,
            Option::Some(p) => Option::Some(p.quantity),
        }
    }

    /// The recorded equity history.
    pub fn equity_history(&self) -> (r: &Vec<Fixed>)
        ensures
            r@.map_values(|f: Fixed| f.m()) == self.model().hist,
    {
        &self.equity_history
    }

    /// Current total equity: cash plus the marked position value.
    pub fn total_equity(&self) -> (r: Fixed)
        requires
            self.wf(),
        ensures
            r.m() == spec_equity(self.model()),
            0 <= r.m() <= MAX_UNITS + MAX_QTY * MAX_PRICE,
    {
        proof {
            lemma_equity_nonneg(self.model());
        }
        match &self.position {
            Option::None => self.cash,
            Option::Some(p) => {
                let value = p.market_value();
                Fixed { mantissa: self.cash.mantissa + value.mantissa }
            },
        }
    }

    /// Marks the open position, if any, to the given price.
    fn mark_to_market(&mut self, price: Fixed)
        requires
            old(self).wf(),
            MIN_PRICE <= price.m() <= MAX_PRICE,
        ensures
            final(self).model() == spec_mark(old(self).model(), price.m()),
            final(self).spec_config() == old(self).spec_config(),
            final(self).wf(),
    {
        let taken = self.position.take();
        match taken {
            Option::None => {
                proof {
                    assert(final(self).model() =~= spec_mark(old(self).model(), price.m()));
                }
            },
            Option::Some(mut p) => {
                p.current_price = price;
                self.position = Option::Some(p);
                proof {
                    assert(final(self).model() =~= spec_mark(old(self).model(), price.m()));
                }
            },
        }
    }

    /// Executes a buy of the configured equity fraction at
    /// `price * (1 + slippage)`; see [`spec_buy`] for the cases in which
    /// it is a no-op. Buying while a position is open changes nothing.
    pub fn execute_buy(&mut self, symbol: &String, price: Fixed)
        requires
            old(self).wf(),
            MIN_PRICE <= price.m() <= MAX_PRICE,
            old(self).model().trades < usize::MAX,
        ensures
            final(self).model() == spec_buy(old(self).spec_config(), old(self).model(), price.m()),
            final(self).spec_config() == old(self).spec_config(),
            final(self).wf(),
            old(self).model().pos is Some ==> final(self).model() == old(self).model(),
    {
        proof {
            lemma_buy_preserves_wf(self.spec_config(), self.model(), price.m());
        }
        if self.position.is_some() {
            return ;
        }
        if self.config.max_positions < 1 {
            return ;
        }
        let equity = self.total_equity();
        proof {
            assert(spec_equity(self.model()) == self.model().cash);
            assert(0 <= equity.m() * self.config.max_position_size.m() <= MAX_UNITS * SCALE) by (
            nonlinear_arith)
                requires
                    0 <= equity.m() <= MAX_UNITS,
                    0 < self.config.max_position_size.m() <= SCALE,
            ;
        }
        let invest = equity.mantissa * self.config.max_position_size.mantissa / SCALE;
        proof {
            assert(0 <= invest <= MAX_UNITS) by (nonlinear_arith)
                requires
                    0 <= (equity.m() * self.spec_config().max_position_size.m()) <= MAX_UNITS
                        * SCALE,
                    invest as int == equity.m() * self.spec_config().max_position_size.m() / (
                    SCALE as int),
                    SCALE == 1_000_000_000i128,
            ;
            assert(0 <= price.m() * ((SCALE as int) + self.spec_config().slippage.m()) <= MAX_PRICE
                * (2 * SCALE)) by (nonlinear_arith)
                requires
                    MIN_PRICE <= price.m() <= MAX_PRICE,
                    0 <= self.spec_config().slippage.m() < SCALE,
            ;
        }
        let fill = price.mantissa * (SCALE + self.config.slippage.mantissa) / SCALE;
        proof {
            assert(price.m() <= fill as int <= 2 * price.m()) by (nonlinear_arith)
                requires
                    MIN_PRICE <= price.m() <= MAX_PRICE,
                    0 <= self.spec_config().slippage.m() < SCALE,
                    fill as int == price.m() * ((SCALE as int) + self.spec_config().slippage.m())
                        / (SCALE as int),
                    SCALE == 1_000_000_000i128,
            ;
            assert(0 <= invest as int / (fill as int) <= MAX_QTY) by (nonlinear_arith)
                requires
                    0 <= invest as int <= MAX_UNITS,
                    fill as int >= MIN_PRICE,
                    MIN_PRICE == 1_000_000i128,
                    MAX_UNITS == 1_000_000_000_000_000_000i128,
                    MAX_QTY == 1_000_000_000_000i128,
            ;
        }
        let qty = invest / fill;
        if qty <= 0 {
            return ;
        }
        proof {
            assert(0 <= (fill as int) * (qty as int) <= 2 * MAX_PRICE * MAX_QTY) by (
            nonlinear_arith)
                requires
                    0 < fill as int <= 2 * MAX_PRICE,
                    0 < qty as int <= MAX_QTY,
            ;
        }
        let cost = fill * qty;
        if cost > self.cash.mantissa {
            proof {
                // the commission is non-negative, so the total also
                // exceeds the cash and the buy rule is a no-op
                let c = (cost as int) * self.spec_config().commission_rate.m() / (SCALE as int);
                assert(c >= 0) by (nonlinear_arith)
                    requires
                        cost as int >= 0,
                        self.spec_config().commission_rate.m() >= 0,
                        c == (cost as int) * self.spec_config().commission_rate.m() / (
                        SCALE as int),
                        SCALE == 1_000_000_000i128,
                ;
            }
            return ;
        }
        proof {
            assert(0 <= (cost as int) * self.spec_config().commission_rate.m() <= MAX_UNITS * SCALE)
                by (nonlinear_arith)
                requires
                    0 <= cost as int <= MAX_UNITS,
                    0 <= self.spec_config().commission_rate.m() < SCALE,
            ;
        }
        let commission = cost * self.config.commission_rate.mantissa / SCALE;
        proof {
            assert(commission >= 0) by (nonlinear_arith)
                requires
                    (cost as int) * self.spec_config().commission_rate.m() >= 0,
                    commission as int == (cost as int) * self.spec_config().commission_rate.m() / (
                    SCALE as int),
                    SCALE == 1_000_000_000i128,
            ;
        }
        let total = cost + commission;
        if total > self.cash.mantissa {
            return ;
        }
        self.cash = Fixed { mantissa: self.cash.mantissa - total };
        self.position = Option::Some(
            Position {
                symbol: symbol.clone(),
                quantity: qty as i64,
                avg_price: Fixed { mantissa: fill },
                current_price: price,
            },
        );
        self.trade_count = self.trade_count + 1;
        proof {
            assert(final(self).model() =~= spec_buy(
                old(self).spec_config(),
                old(self).model(),
                price.m(),
            ));
        }
    }

    /// Executes a full sell at `price * (1 - slippage)`; selling with no
    /// open position changes nothing. Returns `false`, changing nothing,
    /// exactly when the credited cash would leave the machine range.
    pub fn execute_sell(&mut self, price: Fixed) -> (ok: bool)
        requires
            old(self).wf(),
            MIN_PRICE <= price.m() <= MAX_PRICE,
            old(self).model().trades < usize::MAX,
        ensures
            ok <==> spec_sell(old(self).spec_config(), old(self).model(), price.m()).cash
                <= MAX_UNITS,
            ok ==> final(self).model() == spec_sell(
                old(self).spec_config(),
                old(self).model(),
                price.m(),
            ),
            !ok ==> *final(self) == *old(self),
            final(self).spec_config() == old(self).spec_config(),
            final(self).wf(),
            old(self).model().pos is None ==> ok && final(self).model() == old(self).model(),
    {
        let (qty, avg) = match &self.position {
            Option::None => {
                return true;
            },
            Option::Some(p) => (p.quantity, p.avg_price),
        };
        proof {
            assert(0 <= price.m() * ((SCALE as int) - self.spec_config().slippage.m()) <= MAX_PRICE
                * SCALE) by (nonlinear_arith)
                requires
                    MIN_PRICE <= price.m() <= MAX_PRICE,
                    0 <= self.spec_config().slippage.m() < SCALE,
            ;
        }
        let fill = price.mantissa * (SCALE - self.config.slippage.mantissa) / SCALE;
        proof {
            assert(0 <= fill as int <= MAX_PRICE) by (nonlinear_arith)
                requires
                    0 <= price.m() * ((SCALE as int) - self.spec_config().slippage.m()) <= MAX_PRICE
                        * SCALE,
                    fill as int == price.m() * ((SCALE as int) - self.spec_config().slippage.m())
                        / (SCALE as int),
                    SCALE == 1_000_000_000i128,
            ;
            assert(0 <= (fill as int) * (qty as int) <= MAX_PRICE * MAX_QTY) by (nonlinear_arith)
                requires
                    0 <= fill as int <= MAX_PRICE,
                    1 <= qty as int <= MAX_QTY,
            ;
        }
        let proceeds = fill * (qty as i128);
        proof {
            assert(0 <= proceeds * self.spec_config().commission_rate.m() <= (MAX_PRICE * MAX_QTY)
                * SCALE) by (nonlinear_arith)
                requires
                    0 <= proceeds as int <= MAX_PRICE * MAX_QTY,
                    0 <= self.spec_config().commission_rate.m() < SCALE,
            ;
        }
        let commission = proceeds * self.config.commission_rate.mantissa / SCALE;
        proof {
            assert(0 <= commission <= proceeds) by (nonlinear_arith)
                requires
                    0 <= proceeds as int,
                    0 <= self.spec_config().commission_rate.m() < SCALE,
                    commission as int == (proceeds as int) * self.spec_config().commission_rate.m()
                        / (SCALE as int),
                    SCALE == 1_000_000_000i128,
            ;
        }
        let net = proceeds - commission;
        let new_cash = self.cash.mantissa + net;
        if new_cash > MAX_UNITS {
            return false;
        }
        self.cash = Fixed { mantissa: new_cash };
        self.position = Option::None;
        self.trade_count = self.trade_count + 1;
        if fill > avg.mantissa {
            self.winning_trades = self.winning_trades + 1;
        }
        proof {
            assert(final(self).model() =~= spec_sell(
                old(self).spec_config(),
                old(self).model(),
                price.m(),
            ));
        }
        true
    }

    /// Replays the series bar by bar: mark to market, ask the strategy,
    /// execute, record equity; then reduce the history and the counters to
    /// the result. Fails only when a money amount leaves the machine
    /// range, and exactly then.
    pub fn run<S: Strategy>(&mut self, data: &StockData, strategy: &S) -> (r: Result<
        BacktestResult,
        EngineError,
    >)
        requires
            old(self).wf(),
            strategy.wf(),
            data.wf(),
            old(self).model().hist.len() + data.candles@.len() < usize::MAX,
            old(self).model().trades + data.candles@.len() < usize::MAX,
        ensures
            final(self).spec_config() == old(self).spec_config(),
            final(self).wf(),
            r is Ok <==> spec_run_ok(
                old(self).spec_config(),
                old(self).model(),
                data.candles@,
                *strategy,
                data.candles@.len() as int,
            ),
            r matches Ok(res) ==> {
                let m = spec_run(
                    old(self).spec_config(),
                    old(self).model(),
                    data.candles@,
                    *strategy,
                    data.candles@.len() as int,
                );
                &&& final(self).model() == m
                &&& res.total_trades as int == m.trades
                &&& res.equity_curve@.map_values(|f: Fixed| f.m()) == m.hist
                &&& res.total_return.m() == spec_total_return(
                    old(self).spec_config().initial_capital.m(),
                    spec_equity(m),
                )
                &&& res.max_drawdown.m() == spec_max_drawdown(m.hist)
                &&& res.win_rate.m() == spec_win_rate(m.wins, m.trades)
            },
    {
        let ghost cfg = self.spec_config();
        let ghost st0 = self.model();
        let ghost cs = data.candles@;
        let n = data.candles.len();
        let mut i: usize = 0;
        while i < n
            invariant
                0 <= i <= n,
                n == cs.len(),
                cs == data.candles@,
                data.wf(),
                strategy.wf(),
                cfg.wf(),
                cfg == old(self).spec_config(),
                st0 == old(self).model(),
                self.spec_config() == cfg,
                st_wf(st0),
                st0.hist.len() + n < usize::MAX,
                st0.trades + n < usize::MAX,
                spec_run_ok(cfg, st0, cs, *strategy, i as int),
                self.model() == spec_run(cfg, st0, cs, *strategy, i as int),
                self.wf(),
            decreases n - i,
        {
            proof {
                lemma_run_preserves_wf(cfg, st0, cs, *strategy, i as int);
                assert(cs[i as int].wf());
            }
            let candle = data.candles[i];
            let price = candle.close;
            let ghost st_before = self.model();
            self.mark_to_market(price);
            let ghost st1 = self.model();
            let window = vstd::slice::slice_subrange(data.candles.as_slice(), 0, i + 1);
            proof {
                assert(window@ == cs.take(i + 1));
                assert(candles_wf(window@));
            }
            let signal = strategy.generate_signal(window);
            let ghost sig = signal;
            match signal {
                Signal::Buy => {
                    self.execute_buy(&data.symbol, price);
                },
                Signal::Sell => {
                    let ok = self.execute_sell(price);
                    if !ok {
                        proof {
                            assert(!spec_step_ok(cfg, st_before, cs, i as int, *strategy));
                            assert(!spec_run_ok(cfg, st0, cs, *strategy, i + 1));
                            lemma_run_ok_monotone(cfg, st0, cs, *strategy, i + 1, n as int);
                        }
                        return Err(EngineError::Overflow);
                    }
                },
                Signal::Hold => {},
            }
            proof {
                assert(self.model() == spec_apply(cfg, st1, sig, price.m()));
                lemma_apply_preserves_wf(cfg, st1, sig, price.m());
            }
            let equity = self.total_equity();
            if equity.mantissa > MAX_UNITS {
                proof {
                    assert(!spec_step_ok(cfg, st_before, cs, i as int, *strategy));
                    assert(!spec_run_ok(cfg, st0, cs, *strategy, i + 1));
                    lemma_run_ok_monotone(cfg, st0, cs, *strategy, i + 1, n as int);
                }
                return Err(EngineError::Overflow);
            }
            self.equity_history.push(equity);
            proof {
                assert(spec_step_ok(cfg, st_before, cs, i as int, *strategy));
                assert(self.model().hist =~= spec_step(
                    cfg,
                    st_before,
                    cs,
                    i as int,
                    *strategy,
                ).hist);
                assert(self.model() =~= spec_step(cfg, st_before, cs, i as int, *strategy));
                assert(self.model() == spec_run(cfg, st0, cs, *strategy, i + 1));
                lemma_run_preserves_wf(cfg, st0, cs, *strategy, i + 1);
            }
            i = i + 1;
        }
        proof {
            lemma_run_preserves_wf(cfg, st0, cs, *strategy, n as int);
        }
        Ok(self.calculate_result())
    }

    /// Reduces the recorded history and the counters to the result
    /// summary.
    pub fn calculate_result(&self) -> (r: BacktestResult)
        requires
            self.wf(),
        ensures
            r.total_trades as int == self.model().trades,
            r.equity_curve@.map_values(|f: Fixed| f.m()) == self.model().hist,
            r.total_return.m() == spec_total_return(
                self.spec_config().initial_capital.m(),
                spec_equity(self.model()),
            ),
            r.max_drawdown.m() == spec_max_drawdown(self.model().hist),
            r.win_rate.m() == spec_win_rate(self.model().wins, self.model().trades),
    {
        let final_equity = self.total_equity();
        let ret = total_return(self.config.initial_capital, final_equity);
        proof {
            assert(forall|k: int|
                0 <= k < self.equity_history@.len() ==> 0 <= (
                #[trigger] self.equity_history@[k]).m() <= MAX_UNITS) by {
                assert(forall|k: int|
                    0 <= k < self.model().hist.len() ==> 0 <= #[trigger] self.model().hist[k]
                        <= MAX_UNITS);
                assert(forall|k: int|
                    0 <= k < self.equity_history@.len() ==> self.model().hist[k] == (
                    #[trigger] self.equity_history@[k]).m());
            }
        }
        let dd = max_drawdown(&self.equity_history);
        let wr = win_rate(self.winning_trades, self.trade_count);
        let mut curve: Vec<Fixed> = Vec::new();
        let mut k: usize = 0;
        let n = self.equity_history.len();
        while k < n
            invariant
                0 <= k <= n,
                n == self.equity_history@.len(),
                curve@ == self.equity_history@.take(k as int),
            decreases n - k,
        {
            curve.push(self.equity_history[k]);
            proof {
                assert(curve@ =~= self.equity_history@.take(k + 1));
            }
            k = k + 1;
        }
        proof {
            assert(curve@ =~= self.equity_history@);
        }
        BacktestResult {
            total_return: ret,
            max_drawdown: dd,
            win_rate: wr,
            total_trades: self.trade_count,
            equity_curve: curve,
        }
    }
}

} // verus!
