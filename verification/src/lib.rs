//! Exact core of a z-score ranking engine for batting statistics.
//!
//! A population of batters is ranked by a composite score: for each of five
//! metrics the batter's z-score, `(value - mean) / stddev` over the whole
//! population, and the sum of the five. The arithmetic on real numbers is
//! floating point and is left to the caller. This crate holds what is exact
//! and decides everything that is a decision:
//!
//! - [`population`]: the totals of the counting metrics, from which the
//!   means are had by one division, and the refusal of an empty population;
//! - [`scorer`]: what a metric contributes whose deviation is zero;
//! - [`ranker`]: the refusal of scores that are not finite, and the order of
//!   the ranking, with its tie-break by identifier.
//!
//! Scores and deviations cross the boundary as IEEE 754 binary64 bit
//! patterns (`f64::to_bits`, `f64::from_bits`). [`binary64`] gives each
//! pattern the number it stands for, as an exact integer, and every
//! contract about a score is stated over that number.

pub mod binary64;
pub mod identifier;
pub mod population;
pub mod ranker;
pub mod record;
pub mod scorer;
