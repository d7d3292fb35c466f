use vstd::prelude::*;

verus! {

/// The fixed-point unit: a value `v` stands for the real number `v / ONE`.
pub const ONE: u64 = 1_000_000_000;

/// The number of bins used by `get_kelly`.
pub const DEFAULT_BINS: usize = 20;

/// One price observation: a timestamp and a positive price.
#[derive(Clone, Copy, Debug, PartialEq, Eq, Structural)]
pub struct Observation {
    pub timestamp: i64,
    pub price: u32,
}

/// A time series: timestamps and fixed-point values of equal length.
#[derive(Clone, Debug)]
pub struct Qtable {
    pub timestamp: Vec<i64>,
    pub reward: Vec<u64>,
}

/// Why a computation failed.
#[derive(Clone, Copy, Debug, PartialEq, Eq, Structural)]
pub enum KellyError {
    /// Fewer observations than the computation needs.
    EmptyInputError,
    /// A zero price, or a flat series whose bin width would be zero.
    InvalidPriceError,
    /// The trajectory needed a bin that holds no transition.
    UndefinedBinError,
    /// A rank outside the bin table. Ranks are clamped into the table, so
    /// `get_kelly` never returns this.
    InvalidRankError,
    /// A wealth value grew past `u64::MAX` fixed-point units.
    WealthOverflowError,
}

pub open spec fn prices_of(d: Seq<Observation>) -> Seq<int> {
    Seq::new(d.len(), |i: int| d[i].price as int)
}

pub open spec fn stamps_of(d: Seq<Observation>) -> Seq<i64> {
    Seq::new(d.len(), |i: int| d[i].timestamp)
}

/// An optional exec integer as an optional mathematical one.
pub open spec fn opt_int(o: Option<i128>) -> Option<int> {
    match o {
        Some(v) => Some(v as int),
        None => None,
    }
}

pub open spec fn all_positive(s: Seq<int>) -> bool {
    forall|i: int| 0 <= i < s.len() ==> s[i] > 0
}

/// A valid price history: at least two observations, all prices positive.
pub open spec fn valid_prices(s: Seq<int>) -> bool {
    s.len() >= 2 && all_positive(s)
}

/// The normalized return `s[i] / s[0]`, in fixed point, rounded down.
pub open spec fn normalized(s: Seq<int>, i: int) -> int {
    s[i] * (ONE as int) / s[0]
}

pub open spec fn seq_min(s: Seq<int>) -> int
    decreases s.len(),
{
    if s.len() <= 1 {
        s[0]
    } else {
        let m = seq_min(s.drop_last());
        if s.last() < m { s.last() } else { m }
    }
}

pub open spec fn seq_max(s: Seq<int>) -> int
    decreases s.len(),
{
    if s.len() <= 1 {
        s[0]
    } else {
        let m = seq_max(s.drop_last());
        if s.last() > m { s.last() } else { m }
    }
}

/// The one-step ratio `(v1 - v0) / v0` of the transition that starts at
/// index `i`, in fixed point, rounded down. As `v1 / v0 == s[i + 1] / s[i]`,
/// it is computed from the prices directly.
pub open spec fn ratio(s: Seq<int>, i: int) -> int {
    (s[i + 1] - s[i]) * (ONE as int) / s[i]
}

/// The bin of price `p` among `bins` bins of equal width over `[lo, hi]`:
/// bin `n` holds `[lo + n * w, lo + (n + 1) * w)` with `w = (hi - lo) / bins`,
/// and the top bin holds `hi` too. As the origin of a transition is its
/// price over the first, its bin among the normalized bounds is this one.
pub open spec fn bin_at(p: int, lo: int, hi: int, bins: int) -> int {
    let q = bins * (p - lo) / (hi - lo);
    if q >= bins { bins - 1 } else { q }
}

/// The bin of a price over the range of the history `s`.
pub open spec fn bin_of_price(s: Seq<int>, p: int, bins: int) -> int {
    bin_at(p, seq_min(s), seq_max(s), bins)
}

/// The bin of the transition that starts at index `i`.
pub open spec fn bin_of(s: Seq<int>, i: int, bins: int) -> int {
    bin_of_price(s, s[i], bins)
}

/// How many of the first `m` transitions fall in bin `b`.
pub open spec fn bin_count(s: Seq<int>, m: int, b: int, bins: int) -> int
    decreases m,
{
    if m <= 0 {
        0
    } else {
        bin_count(s, m - 1, b, bins) + if bin_of(s, m - 1, bins) == b { 1int } else { 0int }
    }
}

/// The sum of the ratios of the first `m` transitions that fall in bin `b`.
pub open spec fn bin_sum(s: Seq<int>, m: int, b: int, bins: int) -> int
    decreases m,
{
    if m <= 0 {
        0
    } else {
        bin_sum(s, m - 1, b, bins) + if bin_of(s, m - 1, bins) == b { ratio(s, m - 1) } else { 0 }
    }
}

/// The assumed edge of bin `b`: the mean ratio of its transitions, rounded
/// down, or `None` for an empty bin.
pub open spec fn edge(s: Seq<int>, b: int, bins: int) -> Option<int> {
    let c = bin_count(s, s.len() - 1, b, bins);
    if c == 0 {
        None
    } else {
        Some(bin_sum(s, s.len() - 1, b, bins) / c)
    }
}

/// The bin that a wealth `w` (fixed point, in price units) is looked up in:
/// `floor((w - mmin) / interval)` clamped into `[0, bins - 1]`, where
/// `mmin = lo / p0` and `interval = (hi - lo) / (p0 * bins)` are those of
/// the normalized series.
pub open spec fn rank_at(w: int, p0: int, lo: int, hi: int, bins: int) -> int {
    let q = bins * (p0 * w - lo * ONE) / ((ONE as int) * (hi - lo));
    if q < 0 {
        0
    } else if q >= bins {
        bins - 1
    } else {
        q
    }
}

/// The bin that wealth `w` is looked up in over the history `s`.
pub open spec fn rank(s: Seq<int>, w: int, bins: int) -> int {
    rank_at(w, s[0], seq_min(s), seq_max(s), bins)
}

/// The Kelly fraction for a single assumed outcome of unit weight and the
/// given edge: the whole bankroll for a nonzero edge, nothing for a zero one.
pub open spec fn kelly(e: int) -> int {
    if e == 0 { 0 } else { ONE as int }
}

/// The blend `f * (realized * w) + (1 - f) * w` with `realized = pk / pprev`.
pub open spec fn step(w: int, f: int, pk: int, pprev: int) -> int {
    (f * (w * pk / pprev) + (ONE - f) * w) / (ONE as int)
}

/// The Kelly wealth at step `k`, or the error that stopped the walk first.
pub open spec fn walk(s: Seq<int>, bins: int, k: int) -> Result<int, KellyError>
    decreases k,
{
    if k <= 0 {
        Ok(s[0] * ONE)
    } else {
        match walk(s, bins, k - 1) {
            Err(e) => Err(e),
            Ok(w) => match edge(s, rank(s, w, bins), bins) {
                None => Err(KellyError::UndefinedBinError),
                Some(e) => {
                    let w2 = step(w, kelly(e), s[k], s[k - 1]);
                    if w2 > u64::MAX { Err(KellyError::WealthOverflowError) } else { Ok(w2) }
                },
            },
        }
    }
}

} // verus!
