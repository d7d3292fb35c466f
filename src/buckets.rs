use vstd::prelude::*;
use crate::model::{
    Observation, ONE, prices_of, all_positive, valid_prices, seq_min, seq_max, ratio, bin_at,
    bin_of, bin_count, bin_sum, edge, opt_int,
};
use crate::normalize::{price_min, price_max};

verus! {

const RATIO_CAP: i128 = 0x4000_0000_0000_0000;

/// `a / d` rounded down.
fn floor_div(a: i128, d: i128) -> (r: i128)
    requires
        d > 0,
        -0x4000_0000_0000_0000_0000_0000_0000_0000 < a < 0x4000_0000_0000_0000_0000_0000_0000_0000,
        d < 0x4000_0000_0000_0000_0000_0000_0000_0000,
    ensures
        r as int == a as int / d as int,
{
    if a >= 0 {
        a / d
    } else {
        let q: i128 = (d - 1 - a) / d;
        proof {
            let qi = (d - 1 - a) as int / d as int;
            let ri = (d - 1 - a) as int % d as int;
            vstd::arithmetic::div_mod::lemma_fundamental_div_mod(d - 1 - a, d as int);
            vstd::arithmetic::div_mod::lemma_fundamental_div_mod(a as int, d as int);
            assert(d - 1 - a == d * qi + ri && 0 <= ri < d);
            let k = a as int / d as int;
            let m = a as int % d as int;
            assert(a == d * k + m && 0 <= m < d);
            assert(-qi == k) by (nonlinear_arith)
                requires d - 1 - a == d * qi + ri, 0 <= ri < d, a == d * k + m, 0 <= m < d, d > 0;
        }
        -q
    }
}

proof fn lemma_ratio_bounds(s: Seq<int>, i: int)
    requires
        all_positive(s),
        0 <= i < s.len() - 1,
        forall|j: int| 0 <= j < s.len() ==> s[j] <= 0xffff_ffff,
    ensures
        -(ONE as int) <= ratio(s, i) < RATIO_CAP,
{
    let a = s[i + 1] - s[i];
    let d = s[i];
    let o = ONE as int;
    assert(d > 0 && s[i + 1] > 0);
    assert(a * o / d >= -o) by (nonlinear_arith)
        requires a > -d, d > 0, o > 0;
    assert(a * o / d < RATIO_CAP) by (nonlinear_arith)
        requires a < 0x1_0000_0000, d > 0, o == 1_000_000_000;
}

/// The one-step ratio of each consecutive pair of the history, in order.
pub fn transition_ratios(data: &Vec<Observation>) -> (r: Vec<i64>)
    requires
        data.len() >= 1,
        all_positive(prices_of(data@)),
    ensures
        r@.len() == data.len() - 1,
        forall|i: int| 0 <= i < r@.len() ==> r@[i] as int == ratio(prices_of(data@), i),
{
    let ghost s = prices_of(data@);
    let mut r: Vec<i64> = Vec::new();
    let mut i: usize = 0;
    while i + 1 < data.len()
        invariant
            0 <= i < data.len(),
            s == prices_of(data@),
            all_positive(s),
            r@.len() == i,
            forall|j: int| 0 <= j < i ==> r@[j] as int == ratio(s, j),
        decreases data.len() - i,
    {
        proof {
            lemma_ratio_bounds(s, i as int);
        }
        let a: i128 = data[i + 1].price as i128 - data[i].price as i128;
        let v: i128 = floor_div(a * (ONE as i128), data[i].price as i128);
        r.push(v as i64);
        i = i + 1;
    }
    r
}

/// The bin of price `p` among `bins` bins of equal width over `[lo, hi]`.
pub fn bin_index(p: u32, lo: u32, hi: u32, bins: usize) -> (r: usize)
    requires
        lo <= p <= hi,
        lo < hi,
        bins >= 1,
    ensures
        r as int == bin_at(p as int, lo as int, hi as int, bins as int),
        r < bins,
{
    let w: u128 = (p - lo) as u128;
    assert((bins as u128) * w <= 0xffff_ffff_ffff_ffff * 0xffff_ffff) by (nonlinear_arith)
        requires bins <= 0xffff_ffff_ffff_ffff, w <= 0xffff_ffff;
    let q: u128 = (bins as u128) * w / ((hi - lo) as u128);
    if q >= bins as u128 {
        bins - 1
    } else {
        q as usize
    }
}

proof fn lemma_min_max(s: Seq<int>, i: int)
    requires
        0 <= i < s.len(),
    ensures
        seq_min(s) <= s[i] <= seq_max(s),
        exists|j: int| 0 <= j < s.len() && s[j] == seq_min(s),
    decreases s.len(),
{
    if s.len() > 1 {
        if i < s.len() - 1 {
            lemma_min_max(s.drop_last(), i);
        } else {
            lemma_min_max(s.drop_last(), 0);
        }
        let j = choose|j: int| 0 <= j < s.len() - 1 && s.drop_last()[j] == seq_min(s.drop_last());
        if s.last() < seq_min(s.drop_last()) {
            assert(s[s.len() - 1] == seq_min(s));
        } else {
            assert(s[j] == seq_min(s));
        }
    }
}

/// The assumed edge of each of `bins` bins: the mean ratio, rounded down,
/// of the transitions whose origin lies in the bin, or `None` where none
/// does.
pub fn bucket_edges(data: &Vec<Observation>, bins: usize) -> (r: Vec<Option<i128>>)
    requires
        valid_prices(prices_of(data@)),
        seq_min(prices_of(data@)) < seq_max(prices_of(data@)),
        bins >= 1,
    ensures
        r@.len() == bins,
        forall|b: int| 0 <= b < bins ==> opt_int(#[trigger] r@[b]) == edge(prices_of(data@), b, bins as int),
{
    let ghost s = prices_of(data@);
    let lo = price_min(data);
    let hi = price_max(data);
    let ratios = transition_ratios(data);
    let mut sums: Vec<i128> = Vec::new();
    let mut counts: Vec<usize> = Vec::new();
    let mut b: usize = 0;
    while b < bins
        invariant
            0 <= b <= bins,
            sums@.len() == b,
            counts@.len() == b,
            forall|c: int| 0 <= c < b ==> sums@[c] == 0 && counts@[c] == 0,
        decreases bins - b,
    {
        sums.push(0);
        counts.push(0);
        b = b + 1;
    }
    let mut i: usize = 0;
    while i < ratios.len()
        invariant
            0 <= i <= ratios.len(),
            bins >= 1,
            ratios.len() == data.len() - 1,
            s == prices_of(data@),
            valid_prices(s),
            lo as int == seq_min(s),
            hi as int == seq_max(s),
            lo < hi,
            forall|j: int| 0 <= j < ratios@.len() ==> ratios@[j] as int == ratio(s, j),
            sums@.len() == bins,
            counts@.len() == bins,
            forall|c: int| 0 <= c < bins ==> #[trigger] sums@[c] as int == bin_sum(s, i as int, c, bins as int),
            forall|c: int| 0 <= c < bins ==> #[trigger] counts@[c] as int == bin_count(s, i as int, c, bins as int),
            forall|c: int| 0 <= c < bins ==> #[trigger] counts@[c] <= i,
            forall|c: int| 0 <= c < bins ==>
                -(i as int) * (ONE as int) <= #[trigger] sums@[c] <= (i as int) * RATIO_CAP,
        decreases ratios.len() - i,
    {
        proof {
            lemma_min_max(s, i as int);
            lemma_ratio_bounds(s, i as int);
        }
        let c = bin_index(data[i].price, lo, hi, bins);
        assert(c as int == bin_of(s, i as int, bins as int));
        let v: i128 = sums[c] + ratios[i] as i128;
        let n: usize = counts[c] + 1;
        sums.set(c, v);
        counts.set(c, n);
        i = i + 1;
        assert forall|d: int| 0 <= d < bins implies
            -(i as int) * (ONE as int) <= #[trigger] sums@[d] <= (i as int) * RATIO_CAP by {
            assert(-(i as int) * (ONE as int) == -(i - 1) * (ONE as int) - (ONE as int)) by (nonlinear_arith);
            assert((i as int) * RATIO_CAP == (i - 1) * RATIO_CAP + RATIO_CAP) by (nonlinear_arith);
        }
    }
    let mut r: Vec<Option<i128>> = Vec::new();
    let mut b: usize = 0;
    while b < bins
        invariant
            0 <= b <= bins,
            ratios.len() == data.len() - 1,
            s == prices_of(data@),
            sums@.len() == bins,
            counts@.len() == bins,
            forall|c: int| 0 <= c < bins ==> #[trigger] sums@[c] as int == bin_sum(s, s.len() - 1, c, bins as int),
            forall|c: int| 0 <= c < bins ==> #[trigger] counts@[c] as int == bin_count(s, s.len() - 1, c, bins as int),
            forall|c: int| 0 <= c < bins ==> #[trigger] counts@[c] <= ratios.len(),
            forall|c: int| 0 <= c < bins ==>
                -(ratios.len() as int) * (ONE as int) <= #[trigger] sums@[c] <= (ratios.len() as int) * RATIO_CAP,
            r@.len() == b,
            forall|c: int| 0 <= c < b ==> opt_int(#[trigger] r@[c]) == edge(s, c, bins as int),
        decreases bins - b,
    {
        if counts[b] == 0 {
            r.push(None);
        } else {
            assert((ratios.len() as int) * RATIO_CAP < 0x4000_0000_0000_0000_0000_0000_0000_0000) by (nonlinear_arith)
                requires ratios.len() <= usize::MAX;
            assert(-(ratios.len() as int) * (ONE as int) > -0x4000_0000_0000_0000_0000_0000_0000_0000) by (nonlinear_arith)
                requires ratios.len() <= usize::MAX;
            r.push(Some(floor_div(sums[b], counts[b] as i128)));
        }
        b = b + 1;
    }
    r
}

} // verus!
