//! Technical indicators: series of values aligned with a window of
//! candlesticks, and the trading signals derived from them.
pub mod dispatch;
pub mod implementations;
pub mod making;
pub mod persistence;
pub mod series;
pub mod types;
