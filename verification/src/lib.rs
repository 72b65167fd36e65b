//! Verified core of a backtesting task orchestrator: candlestick windows,
//! technical indicators and their trading criteria, the selection machinery of
//! the multi-objective optimizers, and the task scheduler's decisions.
pub mod arithmetic;
pub mod criteria;
pub mod evaluation;
pub mod fetcher;
pub mod indicators;
pub mod intervals;
pub mod klines;
pub mod manager;
pub mod metaheuristic;
pub mod objects;
pub mod random;
pub mod tasks;
pub mod text;
