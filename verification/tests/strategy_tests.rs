use backtesting_rs::data::{Candle, TradeDate};
use backtesting_rs::fixed::Fixed;
use backtesting_rs::strategy::{MeanReversion, Momentum, Signal, SmaCrossover, Strategy};

fn create_test_candles(prices: &[i64]) -> Vec<Candle> {
    prices
        .iter()
        .enumerate()
        .map(|(i, &price)| Candle {
            date: TradeDate::new(2024, 1, 1 + i as u8).unwrap(),
            open: Fixed::from_int(price),
            high: Fixed::from_int(price + 100),
            low: Fixed::from_int(price - 100),
            close: Fixed::from_int(price),
            volume: 1000000,
        })
        .collect()
}

#[test]
fn test_sma_crossover() {
    let strategy = SmaCrossover::new(5, 10);

    let candles = create_test_candles(&[100, 101, 102]);
    assert_eq!(strategy.generate_signal(&candles), Signal::Hold);
}

#[test]
fn test_momentum() {
    let strategy = Momentum::new(5, Fixed::from_mantissa(50_000_000));

    let candles = create_test_candles(&[100, 101, 102, 103, 104, 110]);
    let signal = strategy.generate_signal(&candles);
    assert!(signal == Signal::Buy || signal == Signal::Hold);
}

#[test]
fn sma_crossover_emits_buy_on_golden_cross() {
    let strategy = SmaCrossover::new(1, 2);
    // previous bar: short average 90 <= long average 95;
    // current bar: short average 120 > long average 105
    let candles = create_test_candles(&[100, 90, 120]);
    assert_eq!(strategy.generate_signal(&candles), Signal::Buy);
}

#[test]
fn sma_crossover_emits_sell_on_dead_cross() {
    let strategy = SmaCrossover::new(1, 2);
    let candles = create_test_candles(&[90, 100, 70]);
    assert_eq!(strategy.generate_signal(&candles), Signal::Sell);
}

#[test]
fn momentum_buy_and_sell_thresholds_are_exact() {
    // threshold 5%
    let strategy = Momentum::new(1, Fixed::from_mantissa(50_000_000));
    let up = create_test_candles(&[100, 110]);
    assert_eq!(strategy.generate_signal(&up), Signal::Buy);
    let down = create_test_candles(&[100, 90]);
    assert_eq!(strategy.generate_signal(&down), Signal::Sell);
    // exactly five percent is not strictly above the threshold
    let flat = create_test_candles(&[100, 105]);
    assert_eq!(strategy.generate_signal(&flat), Signal::Hold);
}

#[test]
fn momentum_holds_during_warm_up() {
    let strategy = Momentum::new(5, Fixed::from_mantissa(50_000_000));
    let candles = create_test_candles(&[100, 101]);
    assert_eq!(strategy.generate_signal(&candles), Signal::Hold);
}

#[test]
fn mean_reversion_signals_against_the_band() {
    // two bars, multiplier 0.25: mean 90, deviation 10, band 2.5
    let strategy = MeanReversion::new(2, Fixed::from_mantissa(250_000_000));
    let oversold = create_test_candles(&[100, 80]);
    assert_eq!(strategy.generate_signal(&oversold), Signal::Buy);
    let overbought = create_test_candles(&[100, 120]);
    assert_eq!(strategy.generate_signal(&overbought), Signal::Sell);
}

#[test]
fn mean_reversion_holds_on_flat_prices_and_during_warm_up() {
    let strategy = MeanReversion::new(2, Fixed::from_mantissa(1_000_000_000));
    let flat = create_test_candles(&[100, 100]);
    assert_eq!(strategy.generate_signal(&flat), Signal::Hold);
    let short = create_test_candles(&[100]);
    assert_eq!(strategy.generate_signal(&short), Signal::Hold);
}

#[test]
fn strategy_names_are_stable() {
    assert_eq!(SmaCrossover::new(5, 10).name(), "SMA Crossover");
    assert_eq!(Momentum::new(5, Fixed::from_mantissa(50_000_000)).name(), "Momentum");
    assert_eq!(MeanReversion::new(20, Fixed::from_mantissa(2_000_000_000)).name(), "Mean Reversion");
}
