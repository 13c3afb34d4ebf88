//! Incremental aggregation of streamed performance-test telemetry.
//!
//! A run ingests batches of decoded data points (interval-bucketed metric
//! samples, console log messages, threshold definitions) and maintains
//! queryable aggregates: per-sink derived statistics, a rolling summary,
//! check pass/fail rates, a distinct-location index, and downsampled time
//! series for charting.
//!
//! Label values are fixed-point numbers: an `i64` counts steps of one
//! millionth of a unit (see [`arith::LABEL_UNIT`]), so that every derived
//! quantity has an exact, machine-checkable definition.

pub mod arith;
pub mod entries;
pub mod paths;
pub mod types;
pub mod manager;
pub mod intervals;
pub mod calc;
pub mod thresholds;
pub mod console;
pub mod checks;
pub mod ingest;
pub mod time_series;
pub mod env_vars;

pub use arith::LABEL_UNIT;
