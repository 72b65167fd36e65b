//! The indicators, one by one.
pub mod bollinger_bands;
pub mod exp_moving_average;
pub mod fibonacci;
pub mod ichimoku;
pub mod macd;
pub mod moving_average;
pub mod obv;
pub mod rsi;
pub mod stochastic;
