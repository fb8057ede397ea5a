//! Candle-series tracking for a single trading pair: a rolling window of
//! candlesticks kept in step with the wall clock by an edge-triggered
//! synchronisation state machine.

pub mod candle;
pub mod config;
pub mod interval;
pub mod market;
