//! Monte Carlo simulation of a compounding savings balance.
//!
//! Balances travel through the library as IEEE-754 binary64 bit patterns
//! (`u64`). The arithmetic of one month is supplied by the caller as a step
//! function on those bit patterns; the library runs the trials, fixes how many
//! months each trial compounds, and orders the outcomes.
pub mod total_order;
pub mod engine;
