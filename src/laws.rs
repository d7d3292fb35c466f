use vstd::prelude::*;
use crate::model::{
    Observation, Qtable, KellyError, ONE, prices_of, valid_prices, seq_min, seq_max, bin_of,
    bin_count, edge, rank, kelly, step, walk,
};
use crate::engine::kelly_outcome;

verus! {

/// The total number of the first `m` transitions over bins `0 .. nb`.
pub open spec fn count_total(s: Seq<int>, m: int, nb: int, bins: int) -> int
    decreases nb,
{
    if nb <= 0 {
        0
    } else {
        count_total(s, m, nb - 1, bins) + bin_count(s, m, nb - 1, bins)
    }
}

proof fn lemma_bounds(s: Seq<int>, i: int)
    requires
        0 <= i < s.len(),
    ensures
        seq_min(s) <= s[i] <= seq_max(s),
    decreases s.len(),
{
    if s.len() > 1 && i < s.len() - 1 {
        lemma_bounds(s.drop_last(), i);
    }
}

proof fn lemma_bin_in_range(s: Seq<int>, i: int, bins: int)
    requires
        0 <= i < s.len(),
        seq_min(s) < seq_max(s),
        bins >= 1,
    ensures
        0 <= bin_of(s, i, bins) < bins,
{
    lemma_bounds(s, i);
    let lo = seq_min(s);
    let hi = seq_max(s);
    assert(bins * (s[i] - lo) / (hi - lo) >= 0) by (nonlinear_arith)
        requires bins >= 1, s[i] >= lo, hi > lo;
}

proof fn lemma_total_step(s: Seq<int>, m: int, nb: int, bins: int)
    requires
        0 <= m,
        0 <= nb,
    ensures
        count_total(s, m + 1, nb, bins) == count_total(s, m, nb, bins)
            + if 0 <= bin_of(s, m, bins) < nb { 1int } else { 0int },
    decreases nb,
{
    if nb > 0 {
        lemma_total_step(s, m, nb - 1, bins);
    }
}

/// Every transition lands in exactly one bin: over all bins, the sample
/// counts add up to the number of transitions.
pub proof fn bin_counts_cover_transitions(s: Seq<int>, bins: int)
    requires
        valid_prices(s),
        seq_min(s) < seq_max(s),
        bins >= 1,
    ensures
        count_total(s, s.len() - 1, bins, bins) == s.len() - 1,
{
    lemma_total_upto(s, s.len() - 1, bins);
}

proof fn lemma_total_upto(s: Seq<int>, m: int, bins: int)
    requires
        0 <= m <= s.len() - 1,
        seq_min(s) < seq_max(s),
        bins >= 1,
    ensures
        count_total(s, m, bins, bins) == m,
    decreases m,
{
    if m == 0 {
        lemma_zero_total(s, bins, bins);
    } else {
        lemma_total_upto(s, m - 1, bins);
        lemma_bin_in_range(s, m - 1, bins);
        lemma_total_step(s, m - 1, bins, bins);
    }
}

proof fn lemma_zero_total(s: Seq<int>, nb: int, bins: int)
    ensures
        count_total(s, 0, nb, bins) == 0,
    decreases nb,
{
    if nb > 0 {
        lemma_zero_total(s, nb - 1, bins);
    }
}

proof fn lemma_rank_in_range(s: Seq<int>, w: int, bins: int)
    requires
        bins >= 1,
    ensures
        0 <= rank(s, w, bins) < bins,
{
}

proof fn lemma_walk_flat(s: Seq<int>, bins: int, k: int)
    requires
        valid_prices(s),
        0 <= k < s.len(),
        bins >= 1,
        s[0] * ONE <= u64::MAX,
        forall|b: int| 0 <= b < bins ==> edge(s, b, bins) == Some(0int),
    ensures
        walk(s, bins, k) == Ok::<int, KellyError>(s[0] * ONE),
    decreases k,
{
    let w0 = s[0] * ONE;
    if k > 0 {
        lemma_walk_flat(s, bins, k - 1);
        lemma_rank_in_range(s, w0, bins);
        assert(edge(s, rank(s, w0, bins), bins) == Some(0int));
        assert(step(w0, 0, s[k], s[k - 1]) == w0) by (nonlinear_arith)
            requires step(w0, 0, s[k], s[k - 1]) == (0 * (w0 * s[k] / s[k - 1]) + (ONE - 0) * w0) / (ONE as int);
    }
}

/// With every bin's assumed edge zero, the Kelly fraction is zero and the
/// Kelly wealth stays at its first value for every step.
pub proof fn zero_edges_keep_wealth_flat(d: Seq<Observation>, bins: int, r: Result<(Qtable, Qtable), KellyError>)
    requires
        valid_prices(prices_of(d)),
        seq_min(prices_of(d)) < seq_max(prices_of(d)),
        bins >= 1,
        forall|b: int| 0 <= b < bins ==> edge(prices_of(d), b, bins) == Some(0int),
        kelly_outcome(d, bins, r),
    ensures
        kelly(0) == 0,
        r matches Ok((_, k)) && forall|i: int| 1 <= i < d.len() ==> #[trigger] k.reward@[i] == k.reward@[i - 1],
{
    let s = prices_of(d);
    let w0 = s[0] * ONE;
    assert(w0 <= 0xffff_ffff * ONE) by (nonlinear_arith)
        requires w0 == s[0] * ONE, s[0] <= 0xffff_ffff;
    lemma_walk_flat(s, bins, d.len() - 1);
    assert(r is Ok);
    let k = r->Ok_0.1;
    assert forall|i: int| 1 <= i < d.len() implies #[trigger] k.reward@[i] == k.reward@[i - 1] by {
        lemma_walk_flat(s, bins, i);
        lemma_walk_flat(s, bins, i - 1);
    }
    assert(walk(s, bins, d.len() - 1) is Ok);
}

/// With a single bin, every wealth is looked up in that bin, and the bin
/// holds every transition, so each step uses the same assumed edge.
pub proof fn single_bin_uses_one_edge(s: Seq<int>, w: int)
    requires
        valid_prices(s),
        seq_min(s) < seq_max(s),
    ensures
        rank(s, w, 1) == 0,
        bin_count(s, s.len() - 1, 0, 1) == s.len() - 1,
        edge(s, 0, 1) is Some,
{
    lemma_single_count(s, s.len() - 1);
}

proof fn lemma_single_count(s: Seq<int>, m: int)
    requires
        0 <= m <= s.len() - 1,
        seq_min(s) < seq_max(s),
    ensures
        bin_count(s, m, 0, 1) == m,
    decreases m,
{
    if m > 0 {
        lemma_single_count(s, m - 1);
        lemma_bin_in_range(s, m - 1, 1);
    }
}

proof fn lemma_flat_bounds(s: Seq<int>)
    requires
        s.len() >= 1,
        forall|i: int| 0 <= i < s.len() ==> #[trigger] s[i] == s[0],
    ensures
        seq_min(s) == s[0],
        seq_max(s) == s[0],
    decreases s.len(),
{
    if s.len() > 1 {
        lemma_flat_bounds(s.drop_last());
    }
}

/// A flat price series has a zero bin width, and computing its trajectories
/// fails with the degenerate-input error instead of producing any wealth.
pub proof fn flat_series_is_rejected(d: Seq<Observation>, bins: int, r: Result<(Qtable, Qtable), KellyError>)
    requires
        valid_prices(prices_of(d)),
        forall|i: int| 0 <= i < d.len() ==> #[trigger] d[i].price == d[0].price,
        kelly_outcome(d, bins, r),
    ensures
        seq_max(prices_of(d)) - seq_min(prices_of(d)) == 0,
        r == Err::<(Qtable, Qtable), KellyError>(KellyError::InvalidPriceError),
{
    lemma_flat_bounds(prices_of(d));
}

} // verus!
