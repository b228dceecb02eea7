//! A CPU throughput benchmark: a fixed number of worker threads repeatedly
//! reduce a shared, read-only square matrix while a dispatcher counts how many
//! reductions complete within a time budget.
//!
//! The library holds the verified decisions of the benchmark: reading the
//! command line, the shared matrix and the row reduction over it, and the
//! dispatcher that keeps the workers in flight and decides when to stop.

pub mod config;
pub mod matrix;
pub mod dispatch;
