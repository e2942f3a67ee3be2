//! The scoring policy.
//!
//! A record's composite score is the sum, over the five metrics, of the
//! z-score `(value - mean) / stddev`. The subtraction, the division and the
//! sum are floating-point operations and are the caller's. What is decided
//! here is what a metric contributes when its deviation is zero, where the
//! quotient is no number at all.

use crate::binary64::{is_zero, lemma_magnitude_zero, scaled_value, zero, POSITIVE_ZERO};
use crate::record::{RawRecord, ScoredRecord};
use vstd::prelude::*;

verus! {

/// What one metric contributes to the composite score, given the
/// population's standard deviation of that metric and the quotient
/// `(value - mean) / stddev` as the caller computed it.
///
/// A metric whose deviation is zero, positive or negative, has the same
/// value in every record and tells no two records apart: it contributes
/// positive zero, whatever the quotient holds. Any other metric contributes
/// the quotient.
pub open spec fn contribution(stddev: u64, quotient: u64) -> u64 {
    if is_zero(stddev) {
        POSITIVE_ZERO
    } else {
        quotient
    }
}

/// Applies the zero-deviation policy to one metric of one record.
///
/// A metric that is constant across the population contributes exactly
/// zero.
pub fn z_contribution(stddev: u64, quotient: u64) -> (z: u64)
    ensures
        z == contribution(stddev, quotient),
        is_zero(stddev) ==> is_zero(z) && scaled_value(z) == 0,
{
    if zero(stddev) {
        proof {
            lemma_magnitude_zero(POSITIVE_ZERO);
        }
        POSITIVE_ZERO
    } else {
        quotient
    }
}

/// Makes the scored record of a raw record: the same name and identifier,
/// with the given composite score.
pub fn scored(record: &RawRecord, score: u64) -> (s: ScoredRecord)
    ensures
        s.name == record.name,
        s.id == record.id,
        s.score == score,
{
    ScoredRecord { name: record.name.clone(), id: record.id.clone(), score }
}

} // verus!
