//! Population-wide aggregates of the counting metrics.
//!
//! The mean of a metric is its total divided by the population size. The
//! totals are exact integers and are computed here; the division is the
//! caller's, in floating point.

use crate::record::{Counter, RawRecord};
use vstd::prelude::*;

verus! {

/// Raised when an aggregate is asked of a population without records: no
/// mean or deviation is defined over it, and no ranking is meaningful.
#[derive(Clone, Copy, Debug, PartialEq, Eq)]
pub struct EmptyPopulationError;

/// The exact sums of the four counting metrics over a population, with the
/// population's size.
#[derive(Clone, Copy, Debug, PartialEq, Eq)]
pub struct Totals {
    pub count: usize,
    pub hr: u128,
    pub r: u128,
    pub rbi: u128,
    pub sb: u128,
}

/// The sum of a counting metric over a sequence of records.
pub open spec fn total(records: Seq<RawRecord>, counter: Counter) -> nat
    decreases records.len(),
{
    if records.len() == 0 {
        0
    } else {
        total(records.drop_last(), counter) + records.last().count(counter) as nat
    }
}

/// A sum of `n` values of 64 bits is at most `n * (2^64 - 1)`.
proof fn lemma_total_bound(records: Seq<RawRecord>, counter: Counter)
    ensures
        total(records, counter) <= records.len() * u64::MAX,
    decreases records.len(),
{
    if records.len() > 0 {
        lemma_total_bound(records.drop_last(), counter);
        assert(records.len() * u64::MAX == records.drop_last().len() * u64::MAX + u64::MAX)
            by (nonlinear_arith)
            requires
                records.len() == records.drop_last().len() + 1,
        ;
    }
}

proof fn lemma_fits_u128(n: nat)
    by (nonlinear_arith)
    requires
        n <= u64::MAX,
    ensures
        n * u64::MAX + u64::MAX <= u128::MAX,
{
}

/// Sums one counting metric over the population, in input order.
///
/// The sum is exact: a `u128` holds the total of any number of 64-bit
/// values that a `Vec` can hold.
pub fn counter_total(records: &Vec<RawRecord>, counter: Counter) -> (sum: u128)
    ensures
        sum == total(records@, counter),
{
    let mut sum: u128 = 0;
    let mut i: usize = 0;
    while i < records.len()
        invariant
            i <= records.len(),
            sum == total(records@.take(i as int), counter),
        decreases records.len() - i,
    {
        proof {
            let upto = records@.take(i as int);
            let next = records@.take(i + 1);
            assert(next.drop_last() == upto);
            assert(next.last() == records@[i as int]);
            lemma_total_bound(upto, counter);
            lemma_fits_u128(i as nat);
        }
        sum = sum + records[i].counter(counter) as u128;
        i = i + 1;
    }
    proof {
        assert(records@.take(records.len() as int) == records@);
    }
    sum
}

/// Computes the totals of all four counting metrics.
///
/// Fails exactly when the population is empty.
pub fn totals(records: &Vec<RawRecord>) -> (res: Result<Totals, EmptyPopulationError>)
    ensures
        res is Err <==> records@.len() == 0,
        res matches Ok(t) ==> {
            &&& t.count == records@.len()
            &&& t.hr == total(records@, Counter::HomeRuns)
            &&& t.r == total(records@, Counter::Runs)
            &&& t.rbi == total(records@, Counter::RunsBattedIn)
            &&& t.sb == total(records@, Counter::StolenBases)
        },
{
    if records.len() == 0 {
        return Err(EmptyPopulationError);
    }
    Ok(
        Totals {
            count: records.len(),
            hr: counter_total(records, Counter::HomeRuns),
            r: counter_total(records, Counter::Runs),
            rbi: counter_total(records, Counter::RunsBattedIn),
            sb: counter_total(records, Counter::StolenBases),
        },
    )
}

} // verus!
