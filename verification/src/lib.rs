//! A deterministic, single-asset backtesting library.
//!
//! A time-ordered series of price bars is replayed bar by bar: a strategy
//! maps the bar history seen so far to a trading signal, an execution model
//! turns the signal into a fill with slippage and commission, and the engine
//! tracks cash, the open position and the equity curve. All money arithmetic
//! is exact fixed-point arithmetic on integer mantissas, and the behaviour of
//! every step is stated and proved against a mathematical model.

pub mod data;
pub mod engine;
pub mod fixed;
pub mod stats;
pub mod strategy;
