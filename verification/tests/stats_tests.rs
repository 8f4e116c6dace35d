use backtesting_rs::fixed::Fixed;
use backtesting_rs::stats::{max_drawdown, total_return, win_rate};

#[test]
fn scenario_drawdown_of_a_dip_is_the_peak_relative_loss() {
    // history [100, 110, 90, 120]: the dip from 110 to 90 is
    // 20/110 = 18.181818181...% rounded down to nine digits
    let history = vec![
        Fixed::from_int(100),
        Fixed::from_int(110),
        Fixed::from_int(90),
        Fixed::from_int(120),
    ];
    assert_eq!(max_drawdown(&history), Fixed::from_mantissa(18_181_818_181));
}

#[test]
fn drawdown_is_zero_for_flat_empty_or_rising_histories() {
    assert_eq!(max_drawdown(&Vec::new()), Fixed::from_mantissa(0));
    let flat = vec![Fixed::from_int(100), Fixed::from_int(100)];
    assert_eq!(max_drawdown(&flat), Fixed::from_mantissa(0));
    let rising = vec![Fixed::from_int(100), Fixed::from_int(120), Fixed::from_int(150)];
    assert_eq!(max_drawdown(&rising), Fixed::from_mantissa(0));
}

#[test]
fn drawdown_of_a_total_loss_is_one_hundred_percent() {
    let history = vec![Fixed::from_int(100), Fixed::from_int(0)];
    assert_eq!(max_drawdown(&history), Fixed::from_mantissa(100_000_000_000));
}

#[test]
fn win_rate_rounds_down_and_guards_zero_trades() {
    assert_eq!(win_rate(0, 0), Fixed::from_mantissa(0));
    assert_eq!(win_rate(1, 2), Fixed::from_mantissa(50_000_000_000));
    // 1/3 = 33.333333333...% rounded down
    assert_eq!(win_rate(1, 3), Fixed::from_mantissa(33_333_333_333));
}

#[test]
fn total_return_is_signed() {
    assert_eq!(
        total_return(Fixed::from_int(100), Fixed::from_int(150)),
        Fixed::from_mantissa(50_000_000_000)
    );
    assert_eq!(
        total_return(Fixed::from_int(100), Fixed::from_int(80)),
        Fixed::from_mantissa(-20_000_000_000)
    );
    assert_eq!(
        total_return(Fixed::from_int(100), Fixed::from_int(100)),
        Fixed::from_mantissa(0)
    );
}
