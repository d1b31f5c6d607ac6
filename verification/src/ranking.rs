//! Ranking: the score a document carries into the collector, and the ranker
//! that picks the collector for a parsed query. Scores are fixed-point
//! values, like the precomputed-score column they are seeded from.

use vstd::prelude::*;

verus! {

/// How many hits a search returns by default.
pub const DEFAULT_TOP_N: usize = 20;

/// The total score of one candidate document, as a fixed-point value.
/// Larger is better.
#[derive(Debug, Clone, Copy, PartialEq, Eq, Structural, Hash)]
pub struct Score {
    pub total: u64,
}

/// One ranking signal of a candidate: its measured value and the
/// coefficient the model weighs it with, both in fixed point.
#[derive(Debug, Clone, Copy, PartialEq, Eq, Structural)]
pub struct SignalScore {
    pub value: u64,
    pub coefficient: u64,
}

/// The weighted sum of the first `n` signals.
pub open spec fn linear_total_spec(signals: Seq<SignalScore>, n: int) -> int
    decreases n,
{
    if n <= 0 {
        0
    } else {
        linear_total_spec(signals, n - 1) + signals[n - 1].value * signals[n - 1].coefficient
    }
}

/// Combines the signals into one total score: the sum of every signal's
/// value weighted by its coefficient, clipped at the largest score. A
/// signal with coefficient zero contributes nothing but can still be
/// reported for diagnostics.
pub fn linear_total(signals: &Vec<SignalScore>) -> (r: u64)
    ensures
        linear_total_spec(signals@, signals@.len() as int) <= u64::MAX ==> r == linear_total_spec(
            signals@,
            signals@.len() as int,
        ),
        linear_total_spec(signals@, signals@.len() as int) > u64::MAX ==> r == u64::MAX,
{
    let mut total: u64 = 0;
    let mut clipped = false;
    let mut i: usize = 0;
    while i < signals.len()
        invariant
            i <= signals@.len(),
            !clipped ==> total == linear_total_spec(signals@, i as int),
            clipped ==> linear_total_spec(signals@, i as int) > u64::MAX && total == u64::MAX,
        decreases signals@.len() - i,
    {
        let s = signals[i];
        proof {
            vstd::arithmetic::mul::lemma_mul_upper_bound(
                s.value as int,
                u64::MAX as int,
                s.coefficient as int,
                u64::MAX as int,
            );
            vstd::arithmetic::mul::lemma_mul_nonnegative(s.value as int, s.coefficient as int);
        }
        let wide: u128 = (s.value as u128) * (s.coefficient as u128);
        if clipped {
        } else if wide <= (u64::MAX as u128) && total <= u64::MAX - (wide as u64) {
            total = total + (wide as u64);
        } else {
            total = u64::MAX;
            clipped = true;
        }
        i = i + 1;
    }
    total
}

/// Builds the collector a query is answered with.
pub struct Ranker {
    query: crate::query::Query,
}

impl Ranker {
    /// The subqueries of the query this ranker was built for.
    pub closed spec fn spec_query_parts(&self) -> Seq<crate::query::QueryPartView> {
        self.query.spec_parts()
    }

    pub fn new(query: crate::query::Query) -> (r: Self)
        ensures
            r.spec_query_parts() == query.spec_parts(),
    {
        Ranker { query }
    }

    /// The collector that gathers the best hits for this ranker's query.
    pub fn collector(&self) -> (r: crate::collector::TopDocs)
        ensures
            r.spec_top_n() == DEFAULT_TOP_N,
            r.spec_offset() == 0,
            r.spec_de_rank_similar() == false,
    {
        crate::collector::TopDocs::with_limit(DEFAULT_TOP_N)
    }
}

} // verus!
