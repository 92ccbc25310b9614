//! Online (single-pass) computation of running mean and variance over a
//! stream of weighted samples, using Welford's algorithm with West's
//! frequency-weight extension, together with a two-way merge of
//! independently accumulated states.
//!
//! Samples are exact rational numbers ([`Ratio`]), so every statistic this
//! crate reports is the exact value of the corresponding closed-form
//! expression; operations report arithmetic overflow instead of panicking.

pub mod rational;
pub mod welford;

pub use rational::Frac;
pub use rational::Ratio;
pub use welford::Stats;
pub use welford::Welford;
