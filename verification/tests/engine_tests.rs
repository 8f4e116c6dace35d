use backtesting_rs::data::{Candle, DataLoader, TradeDate};
use backtesting_rs::engine::{
    BacktestConfig, BacktestEngine, ConfigError, EngineError, Position,
};
use backtesting_rs::fixed::Fixed;
use backtesting_rs::strategy::{MeanReversion, Momentum, SmaCrossover};

fn create_test_candles(prices: &[i64]) -> Vec<Candle> {
    prices
        .iter()
        .enumerate()
        .map(|(i, &price)| Candle {
            date: TradeDate::new(2024, 1, 1 + i as u8).unwrap(),
            open: Fixed::from_int(price),
            high: Fixed::from_int(price + 100),
            low: Fixed::from_int(price - 100),
            close: Fixed::from_int(price),
            volume: 1000000,
        })
        .collect()
}

fn scenario_config() -> BacktestConfig {
    BacktestConfig::new(
        Fixed::from_int(10_000_000),
        Fixed::from_mantissa(150_000),   // 0.00015
        Fixed::from_mantissa(1_000_000), // 0.001
        10,
        Fixed::from_mantissa(100_000_000), // 0.1
    )
    .unwrap()
}

#[test]
fn test_default_config() {
    let config = BacktestConfig::default();
    assert_eq!(config.initial_capital, Fixed::from_int(10_000_000));
    assert_eq!(config.max_positions, 10);
}

#[test]
fn each_config_field_is_validated_at_construction() {
    let good = scenario_config();
    let r = BacktestConfig::new(
        Fixed::from_int(0),
        good.commission_rate,
        good.slippage,
        good.max_positions,
        good.max_position_size,
    );
    assert_eq!(r.unwrap_err(), ConfigError::InvalidCapital);
    let r = BacktestConfig::new(
        good.initial_capital,
        Fixed::from_int(1),
        good.slippage,
        good.max_positions,
        good.max_position_size,
    );
    assert_eq!(r.unwrap_err(), ConfigError::InvalidCommission);
    let r = BacktestConfig::new(
        good.initial_capital,
        good.commission_rate,
        Fixed::from_mantissa(-1),
        good.max_positions,
        good.max_position_size,
    );
    assert_eq!(r.unwrap_err(), ConfigError::InvalidSlippage);
    let r = BacktestConfig::new(
        good.initial_capital,
        good.commission_rate,
        good.slippage,
        0,
        good.max_position_size,
    );
    assert_eq!(r.unwrap_err(), ConfigError::InvalidMaxPositions);
    let r = BacktestConfig::new(
        good.initial_capital,
        good.commission_rate,
        good.slippage,
        good.max_positions,
        Fixed::from_mantissa(0),
    );
    assert_eq!(r.unwrap_err(), ConfigError::InvalidPositionSize);
}

#[test]
fn scenario_insufficient_history_holds_everything() {
    // three bars are not enough history for SmaCrossover(5, 10): every
    // signal is Hold, no trade happens, and the final equity is the
    // initial capital exactly
    let data = DataLoader::from_records(
        "KOSPI".to_string(),
        create_test_candles(&[100, 101, 102]),
    )
    .unwrap();
    let strategy = SmaCrossover::new(5, 10);
    let mut engine = BacktestEngine::new(scenario_config());
    let result = engine.run(&data, &strategy).unwrap();
    assert_eq!(result.total_trades, 0);
    assert_eq!(result.equity_curve.len(), 3);
    for e in &result.equity_curve {
        assert_eq!(*e, Fixed::from_int(10_000_000));
    }
    assert_eq!(result.total_return, Fixed::from_mantissa(0));
    assert_eq!(result.win_rate, Fixed::from_mantissa(0));
    assert_eq!(result.max_drawdown, Fixed::from_mantissa(0));
}

#[test]
fn scenario_single_buy_costs_are_exact() {
    // capital 10,000,000; commission 0.00015; slippage 0.001; one buy at
    // price 100 with position size 0.1: fill 100.1, quantity 9990,
    // cost 9990 * 100.1 * 1.00015 = 999,999 * 1.00015 = 1,000,148.99985
    let symbol = "KOSPI".to_string();
    let mut engine = BacktestEngine::new(scenario_config());
    engine.execute_buy(&symbol, Fixed::from_int(100));
    assert_eq!(engine.trade_count(), 1);
    assert_eq!(engine.position_quantity(), Some(9990));
    assert_eq!(engine.cash(), Fixed::from_mantissa(8_999_851_000_150_000));
}

#[test]
fn scenario_sell_after_buy_realizes_a_win() {
    // selling at 110 right after the buy at 100: fill 109.89 beats the
    // entry price 100.1, so the win counter moves; the position goes away
    // and cash grows by the net proceeds
    // 109.89 * 9990 * (1 - 0.00015) = 1,097,636.429835
    let symbol = "KOSPI".to_string();
    let mut engine = BacktestEngine::new(scenario_config());
    engine.execute_buy(&symbol, Fixed::from_int(100));
    let ok = engine.execute_sell(Fixed::from_int(110));
    assert!(ok);
    assert_eq!(engine.trade_count(), 2);
    assert_eq!(engine.winning_trades(), 1);
    assert!(engine.position_quantity().is_none());
    assert_eq!(engine.cash(), Fixed::from_mantissa(10_097_487_429_985_000));
    let result = engine.calculate_result();
    assert_eq!(result.win_rate, Fixed::from_mantissa(50_000_000_000));
}

#[test]
fn selling_without_a_position_changes_nothing() {
    let mut engine = BacktestEngine::new(scenario_config());
    let ok = engine.execute_sell(Fixed::from_int(100));
    assert!(ok);
    assert_eq!(engine.trade_count(), 0);
    assert_eq!(engine.cash(), Fixed::from_int(10_000_000));
    assert!(engine.position_quantity().is_none());
}

#[test]
fn buying_on_top_of_a_position_changes_nothing() {
    let symbol = "KOSPI".to_string();
    let mut engine = BacktestEngine::new(scenario_config());
    engine.execute_buy(&symbol, Fixed::from_int(100));
    let cash_before = engine.cash();
    let qty_before = engine.position_quantity();
    engine.execute_buy(&symbol, Fixed::from_int(105));
    assert_eq!(engine.cash(), cash_before);
    assert_eq!(engine.position_quantity(), qty_before);
    assert_eq!(engine.trade_count(), 1);
}

#[test]
fn full_run_buy_then_sell_is_exact() {
    // momentum(1, 5%): Hold on the first bar, Buy at 110, Sell at 100
    let data = DataLoader::from_records(
        "KOSPI".to_string(),
        create_test_candles(&[100, 110, 100]),
    )
    .unwrap();
    let strategy = Momentum::new(1, Fixed::from_mantissa(50_000_000));
    let mut engine = BacktestEngine::new(scenario_config());
    let result = engine.run(&data, &strategy).unwrap();
    assert_eq!(result.total_trades, 2);
    assert_eq!(engine.winning_trades(), 0);
    assert_eq!(engine.cash(), Fixed::from_mantissa(9_906_996_924_878_500));
    assert_eq!(result.win_rate, Fixed::from_mantissa(0));
}

#[test]
fn full_run_mean_reversion_buys_below_the_band() {
    // MeanReversion(2, 0.25): Hold during warm-up, then mean 90 and
    // band 2.5 at the 80 close, which is below 87.5: Buy at fill 80.08
    let mut candles = create_test_candles(&[100, 80]);
    for c in candles.iter_mut() {
        c.low = c.close;
    }
    let data = DataLoader::from_records("KOSPI".to_string(), candles).unwrap();
    let strategy = MeanReversion::new(2, Fixed::from_mantissa(250_000_000));
    let mut engine = BacktestEngine::new(scenario_config());
    let result = engine.run(&data, &strategy).unwrap();
    assert_eq!(result.total_trades, 1);
    assert_eq!(engine.position_quantity(), Some(12487));
    assert_eq!(engine.cash(), Fixed::from_mantissa(8_999_891_046_156_000));
    assert_eq!(
        *result.equity_curve.last().unwrap(),
        Fixed::from_mantissa(9_998_851_046_156_000)
    );
}

#[test]
fn run_reports_overflow_when_equity_leaves_the_machine_range() {
    // a maximal position bought at the lowest price, marked at the
    // highest one, exceeds the largest representable money amount
    let config = BacktestConfig::new(
        Fixed::from_int(1_000_000_000),
        Fixed::from_mantissa(0),
        Fixed::from_mantissa(1_000_000),
        10,
        Fixed::from_mantissa(1_000_000_000), // the whole equity
    )
    .unwrap();
    let mut candles = create_test_candles(&[1, 1, 1]);
    candles[0].close = Fixed::from_mantissa(1_000_000); // 0.001
    candles[1].close = Fixed::from_mantissa(2_000_000); // 0.002
    candles[2].close = Fixed::from_int(100_000);
    for c in candles.iter_mut() {
        c.open = c.close;
        c.high = c.close;
        c.low = c.close;
    }
    let data = DataLoader::from_records("X".to_string(), candles).unwrap();
    let strategy = Momentum::new(1, Fixed::from_mantissa(50_000_000));
    let mut engine = BacktestEngine::new(config);
    let r = engine.run(&data, &strategy);
    assert_eq!(r.unwrap_err(), EngineError::Overflow);
}

#[test]
fn position_reports_value_and_pnl() {
    let position = Position {
        symbol: "KOSPI".to_string(),
        quantity: 10,
        avg_price: Fixed::from_int(100),
        current_price: Fixed::from_int(110),
    };
    assert_eq!(position.market_value(), Fixed::from_int(1100));
    assert_eq!(position.unrealized_pnl(), Fixed::from_int(100));
    // (110 - 100) / 100 = 10%
    assert_eq!(position.unrealized_pnl_pct(), Fixed::from_mantissa(10_000_000_000));
}
