//! The task scheduler: its bookkeeping and its decisions.
pub mod processor;
pub mod scheduler;
