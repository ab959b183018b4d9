//! Trend signals from a tape of trades.
//!
//! Ticks are decoded and rate-limited as they stream in, trades are gathered
//! per instrument in a bounded buffer and cut into candles per timeframe, and
//! the crossovers found on each timeframe are fused into one decision with a
//! bounded strength.
//!
//! Every number that is a double in the feed is held here by its bit pattern
//! (see `number`). Doubles are ordered here; their arithmetic is the caller's,
//! who hands it in as functions on bits (see `ema` and `engine`). The
//! connection, the clock and the delivery of decisions are the caller's too:
//! `ingest` says what to do next, the caller does it.
pub mod order;
pub mod number;
pub mod text;
pub mod signal;
pub mod ema;
pub mod candles;
pub mod buffer;
pub mod json;
pub mod delta;
pub mod telegram;
pub mod rate;
pub mod ingest;
pub mod scoring;
pub mod engine;
