//! Test positions for benchmarks and tuning.

pub mod epd;
