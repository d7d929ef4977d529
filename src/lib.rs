//! Latency percentile statistics over integer samples.
//!
//! Samples are latencies in an integer unit (for example nanoseconds).
//! Quantile levels are fractions `num / den`, and every quantile is returned as
//! an exact rational number, so no rounding happens anywhere but in the
//! two-decimal average of a summary.
pub mod quantile;
pub mod stats;
pub mod streaming;
