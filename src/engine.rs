use vstd::prelude::*;
use crate::model::{
    Observation, Qtable, KellyError, ONE, DEFAULT_BINS, prices_of, stamps_of, all_positive,
    valid_prices, seq_min, seq_max, edge, opt_int, rank_at, rank, kelly, step, walk,
};
use crate::normalize::{price_min, price_max, prices_positive};
use crate::buckets::bucket_edges;

verus! {

/// The Kelly fraction, in fixed point, for a single assumed outcome of unit
/// weight and edge `e`: the expected gain over the largest wager,
/// `(1 * e) / e`, which is the whole bankroll; a zero edge stakes nothing.
pub fn kelly_fraction(e: i128) -> (r: u64)
    ensures
        r as int == kelly(e as int),
{
    if e == 0 {
        0
    } else {
        ONE
    }
}

/// The clamped bin of wealth `w` for a history whose first, least and
/// greatest prices are `p0`, `lo` and `hi`.
pub fn rank_of(w: u64, p0: u32, lo: u32, hi: u32, bins: usize) -> (r: usize)
    requires
        lo < hi,
        bins >= 1,
    ensures
        r as int == rank_at(w as int, p0 as int, lo as int, hi as int, bins as int),
        r < bins,
{
    assert((p0 as int) * (w as int) <= 0xffff_ffff * 0xffff_ffff_ffff_ffff) by (nonlinear_arith)
        requires p0 <= 0xffff_ffff, w <= 0xffff_ffff_ffff_ffff;
    assert((p0 as int) * (w as int) >= 0) by (nonlinear_arith)
        requires p0 >= 0, w >= 0;
    assert((lo as int) * (ONE as int) <= 0xffff_ffff * ONE) by (nonlinear_arith)
        requires lo <= 0xffff_ffff;
    let d: i128 = (p0 as i128) * (w as i128) - (lo as i128) * (ONE as i128);
    let den: i128 = (ONE as i128) * ((hi - lo) as i128);
    let ghost q = bins * d / (den as int);
    if d < 0 {
        assert(q < 0) by (nonlinear_arith)
            requires q == bins * d / (den as int), d < 0, bins >= 1, den > 0;
        0
    } else if d >= den {
        assert(q >= bins) by (nonlinear_arith)
            requires q == bins * d / (den as int), d >= den, bins >= 1, den > 0;
        bins - 1
    } else {
        assert(bins * d < 0x1_0000_0000_0000_0000 * den) by (nonlinear_arith)
            requires bins < 0x1_0000_0000_0000_0000, 0 <= d < den;
        assert(q < bins) by (nonlinear_arith)
            requires q == bins * d / (den as int), 0 <= d < den, bins >= 1;
        assert(q >= 0) by (nonlinear_arith)
            requires q == bins * d / (den as int), 0 <= d, bins >= 1, den > 0;
        ((bins as i128) * d / den) as usize
    }
}

/// The wealth after one step: the blend `f * (realized * w) + (1 - f) * w`
/// of betting fraction `f` with `realized = pk / pprev`, or `None` where it
/// does not fit in a `u64`.
pub fn next_wealth(w: u64, f: u64, pk: u32, pprev: u32) -> (r: Option<u64>)
    requires
        f <= ONE,
        pprev > 0,
    ensures
        step(w as int, f as int, pk as int, pprev as int) > u64::MAX ==> r is None,
        step(w as int, f as int, pk as int, pprev as int) <= u64::MAX
            ==> r == Some(step(w as int, f as int, pk as int, pprev as int) as u64),
{
    assert((w as int) * (pk as int) <= 0xffff_ffff_ffff_ffff * 0xffff_ffff) by (nonlinear_arith)
        requires w <= 0xffff_ffff_ffff_ffff, pk <= 0xffff_ffff;
    let a: u128 = (w as u128) * (pk as u128);
    let all_in: u128 = a / (pprev as u128);
    assert(all_in <= a) by (nonlinear_arith)
        requires all_in == a / (pprev as u128), pprev > 0, a >= 0;
    assert((f as int) * (all_in as int) <= ONE * (0xffff_ffff_ffff_ffff * 0xffff_ffff)) by (nonlinear_arith)
        requires f <= ONE, all_in <= 0xffff_ffff_ffff_ffff * 0xffff_ffff;
    let x: u128 = (f as u128) * all_in;
    assert(((ONE - f) as int) * (w as int) <= ONE * 0xffff_ffff_ffff_ffff) by (nonlinear_arith)
        requires f <= ONE, w <= 0xffff_ffff_ffff_ffff;
    let y: u128 = ((ONE - f) as u128) * (w as u128);
    let v: u128 = (x + y) / (ONE as u128);
    if v > u64::MAX as u128 {
        None
    } else {
        Some(v as u64)
    }
}

/// What computing both trajectories of history `d` with `bins` bins gives:
/// each input error on exactly the inputs that have it, else the first error
/// of the walk, else the price series in fixed point and the Kelly wealth
/// of each step, with the timestamps unchanged.
pub open spec fn kelly_outcome(d: Seq<Observation>, bins: int, r: Result<(Qtable, Qtable), KellyError>) -> bool {
    let s = prices_of(d);
    &&& d.len() < 2 ==> r == Err::<(Qtable, Qtable), KellyError>(KellyError::EmptyInputError)
    &&& d.len() >= 2 && !all_positive(s)
        ==> r == Err::<(Qtable, Qtable), KellyError>(KellyError::InvalidPriceError)
    &&& valid_prices(s) && seq_min(s) == seq_max(s)
        ==> r == Err::<(Qtable, Qtable), KellyError>(KellyError::InvalidPriceError)
    &&& valid_prices(s) && seq_min(s) < seq_max(s) ==> match walk(s, bins, d.len() - 1) {
        Err(e) => r == Err::<(Qtable, Qtable), KellyError>(e),
        Ok(_) => r is Ok,
    }
    &&& r matches Ok((all_in, k)) ==> {
        &&& all_in.timestamp@ == stamps_of(d)
        &&& all_in.reward@.len() == d.len()
        &&& forall|i: int| 0 <= i < d.len() ==> all_in.reward@[i] as int == s[i] * ONE
        &&& k.timestamp@ == stamps_of(d)
        &&& k.reward@.len() == d.len()
        &&& forall|i: int| 0 <= i < d.len() ==> walk(s, bins, i) == Ok::<int, KellyError>(k.reward@[i] as int)
    }
}

proof fn lemma_walk_err_stays(s: Seq<int>, bins: int, j: int, k: int, e: KellyError)
    requires
        0 <= j <= k,
        walk(s, bins, j) == Err::<int, KellyError>(e),
    ensures
        walk(s, bins, k) == Err::<int, KellyError>(e),
    decreases k,
{
    if j < k {
        lemma_walk_err_stays(s, bins, j, k - 1, e);
    }
}

/// Both trajectories of a price history with `bins` bins: the all-in one,
/// which is the price series itself, and the Kelly one.
pub fn get_kelly_with_bins(data: &Vec<Observation>, bins: usize) -> (r: Result<(Qtable, Qtable), KellyError>)
    requires
        bins >= 1,
    ensures
        kelly_outcome(data@, bins as int, r),
{
    if data.len() < 2 {
        return Err(KellyError::EmptyInputError);
    }
    if !prices_positive(data) {
        return Err(KellyError::InvalidPriceError);
    }
    let ghost s = prices_of(data@);
    let lo = price_min(data);
    let hi = price_max(data);
    if lo >= hi {
        return Err(KellyError::InvalidPriceError);
    }
    let edges = bucket_edges(data, bins);
    let p0: u32 = data[0].price;
    let mut timestamp: Vec<i64> = Vec::new();
    let mut all_in: Vec<u64> = Vec::new();
    let mut wealth: Vec<u64> = Vec::new();
    let mut w: u64 = (p0 as u64) * ONE;
    let mut i: usize = 0;
    while i < data.len()
        invariant
            0 <= i <= data.len(),
            data.len() >= 2,
            s == prices_of(data@),
            valid_prices(s),
            bins >= 1,
            lo as int == seq_min(s),
            hi as int == seq_max(s),
            lo < hi,
            p0 == s[0],
            edges@.len() == bins,
            forall|b: int| 0 <= b < bins ==> opt_int(#[trigger] edges@[b]) == edge(s, b, bins as int),
            timestamp@ == stamps_of(data@).take(i as int),
            all_in@.len() == i,
            forall|j: int| 0 <= j < i ==> all_in@[j] as int == s[j] * ONE,
            wealth@.len() == i,
            forall|j: int| 0 <= j < i ==> walk(s, bins as int, j) == Ok::<int, KellyError>(wealth@[j] as int),
            i == 0 ==> w == s[0] * ONE,
            i > 0 ==> w == wealth@[i - 1],
        decreases data.len() - i,
    {
        if i > 0 {
            assert(walk(s, bins as int, i - 1) == Ok::<int, KellyError>(w as int));
            let c = rank_of(w, p0, lo, hi, bins);
            assert(c as int == rank(s, w as int, bins as int));
            let f: u64 = match edges[c] {
                None => {
                    assert(walk(s, bins as int, i as int) == Err::<int, KellyError>(KellyError::UndefinedBinError));
                    proof {
                        lemma_walk_err_stays(s, bins as int, i as int, data.len() - 1, KellyError::UndefinedBinError);
                    }
                    return Err(KellyError::UndefinedBinError);
                },
                Some(e) => kelly_fraction(e),
            };
            match next_wealth(w, f, data[i].price, data[i - 1].price) {
                None => {
                    assert(walk(s, bins as int, i as int) == Err::<int, KellyError>(KellyError::WealthOverflowError));
                    proof {
                        lemma_walk_err_stays(s, bins as int, i as int, data.len() - 1, KellyError::WealthOverflowError);
                    }
                    return Err(KellyError::WealthOverflowError);
                },
                Some(v) => {
                    w = v;
                },
            }
        }
        let p: u64 = data[i].price as u64;
        assert(p * ONE <= 0xffff_ffff * ONE) by (nonlinear_arith)
            requires p <= 0xffff_ffff;
        assert(stamps_of(data@).take(i + 1) =~= stamps_of(data@).take(i as int).push(data@[i as int].timestamp));
        timestamp.push(data[i].timestamp);
        all_in.push(p * ONE);
        wealth.push(w);
        i = i + 1;
    }
    assert(stamps_of(data@).take(data.len() as int) =~= stamps_of(data@));
    let all_in_series = Qtable { timestamp: timestamp.clone(), reward: all_in };
    let kelly_series = Qtable { timestamp, reward: wealth };
    Ok((all_in_series, kelly_series))
}

/// Both trajectories of a price history with the default number of bins.
pub fn get_kelly(data: Vec<Observation>) -> (r: Result<(Qtable, Qtable), KellyError>)
    ensures
        kelly_outcome(data@, DEFAULT_BINS as int, r),
{
    get_kelly_with_bins(&data, DEFAULT_BINS)
}

} // verus!
