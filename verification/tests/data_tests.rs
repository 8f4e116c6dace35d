use backtesting_rs::data::{Candle, DataError, DataLoader, TradeDate};
use backtesting_rs::fixed::Fixed;

fn candle(year: i32, month: u8, day: u8, close_units: i64) -> Candle {
    Candle {
        date: TradeDate::new(year, month, day).unwrap(),
        open: Fixed::from_int(close_units),
        high: Fixed::from_int(close_units + 1),
        low: Fixed::from_int(close_units - 1),
        close: Fixed::from_int(close_units),
        volume: 1000,
    }
}

#[test]
fn test_candle_creation() {
    let candle = Candle {
        date: TradeDate::new(2024, 1, 1).unwrap(),
        open: Fixed::from_int(10000),
        high: Fixed::from_int(10500),
        low: Fixed::from_int(9800),
        close: Fixed::from_int(10200),
        volume: 1000000,
    };

    assert_eq!(candle.close, Fixed::from_int(10200));
}

#[test]
fn empty_batch_is_rejected_before_any_engine_state() {
    let r = DataLoader::from_records("KOSPI".to_string(), Vec::new());
    assert_eq!(r.unwrap_err(), DataError::EmptyData);
}

#[test]
fn out_of_range_record_is_rejected() {
    let mut bad = candle(2024, 1, 1, 100);
    bad.close = Fixed::from_mantissa(0);
    let r = DataLoader::from_records("X".to_string(), vec![bad]);
    assert_eq!(r.unwrap_err(), DataError::RecordOutOfRange);
}

#[test]
fn records_come_back_sorted_by_date() {
    let records = vec![
        candle(2024, 3, 1, 102),
        candle(2024, 1, 1, 100),
        candle(2024, 2, 1, 101),
    ];
    let sd = DataLoader::from_records("X".to_string(), records).unwrap();
    assert_eq!(sd.len(), 3);
    assert!(!sd.is_empty());
    assert_eq!(sd.candles[0].close, Fixed::from_int(100));
    assert_eq!(sd.candles[1].close, Fixed::from_int(101));
    assert_eq!(sd.candles[2].close, Fixed::from_int(102));
}

#[test]
fn invalid_dates_are_rejected() {
    assert!(TradeDate::new(2024, 0, 1).is_none());
    assert!(TradeDate::new(2024, 13, 1).is_none());
    assert!(TradeDate::new(2024, 1, 0).is_none());
    assert!(TradeDate::new(2024, 1, 32).is_none());
    assert!(TradeDate::new(2024, 12, 31).is_some());
}
