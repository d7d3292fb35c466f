use vstd::prelude::*;
use crate::model::{Observation, Qtable, KellyError, ONE, prices_of, stamps_of, all_positive, normalized, seq_min, seq_max};

verus! {

/// The least price of a non-empty history.
pub fn price_min(data: &Vec<Observation>) -> (r: u32)
    requires
        data.len() >= 1,
    ensures
        r as int == seq_min(prices_of(data@)),
{
    let ghost s = prices_of(data@);
    let mut m: u32 = data[0].price;
    let mut i: usize = 1;
    assert(s.take(1).len() == 1);
    while i < data.len()
        invariant
            1 <= i <= data.len(),
            s == prices_of(data@),
            m as int == seq_min(s.take(i as int)),
        decreases data.len() - i,
    {
        assert(s.take(i + 1).drop_last() =~= s.take(i as int));
        if data[i].price < m {
            m = data[i].price;
        }
        i = i + 1;
    }
    assert(s.take(data.len() as int) =~= s);
    m
}

/// The greatest price of a non-empty history.
pub fn price_max(data: &Vec<Observation>) -> (r: u32)
    requires
        data.len() >= 1,
    ensures
        r as int == seq_max(prices_of(data@)),
{
    let ghost s = prices_of(data@);
    let mut m: u32 = data[0].price;
    let mut i: usize = 1;
    assert(s.take(1).len() == 1);
    while i < data.len()
        invariant
            1 <= i <= data.len(),
            s == prices_of(data@),
            m as int == seq_max(s.take(i as int)),
        decreases data.len() - i,
    {
        assert(s.take(i + 1).drop_last() =~= s.take(i as int));
        if data[i].price > m {
            m = data[i].price;
        }
        i = i + 1;
    }
    assert(s.take(data.len() as int) =~= s);
    m
}

/// Whether every price of the history is positive.
pub fn prices_positive(data: &Vec<Observation>) -> (r: bool)
    ensures
        r == all_positive(prices_of(data@)),
{
    let mut i: usize = 0;
    while i < data.len()
        invariant
            0 <= i <= data.len(),
            forall|j: int| 0 <= j < i ==> data@[j].price > 0,
        decreases data.len() - i,
    {
        if data[i].price == 0 {
            assert(prices_of(data@)[i as int] == 0);
            return false;
        }
        i = i + 1;
    }
    assert(forall|j: int| 0 <= j < data.len() ==> prices_of(data@)[j] > 0);
    true
}

/// The normalized-return series: the timestamps unchanged and each price
/// divided by the first, so that the first value is exactly `ONE`.
pub fn normalize(data: &Vec<Observation>) -> (r: Result<Qtable, KellyError>)
    ensures
        data.len() == 0 ==> r == Err::<Qtable, KellyError>(KellyError::EmptyInputError),
        data.len() > 0 && !all_positive(prices_of(data@))
            ==> r == Err::<Qtable, KellyError>(KellyError::InvalidPriceError),
        data.len() > 0 && all_positive(prices_of(data@)) ==> r is Ok,
        r matches Ok(q) ==> {
            &&& q.timestamp@ == stamps_of(data@)
            &&& q.reward@.len() == data.len()
            &&& q.reward@[0] == ONE
            &&& forall|i: int| 0 <= i < data.len() ==>
                q.reward@[i] as int == normalized(prices_of(data@), i)
        },
{
    if data.len() == 0 {
        return Err(KellyError::EmptyInputError);
    }
    if !prices_positive(data) {
        return Err(KellyError::InvalidPriceError);
    }
    let ghost s = prices_of(data@);
    let p0: u64 = data[0].price as u64;
    let mut timestamp: Vec<i64> = Vec::new();
    let mut reward: Vec<u64> = Vec::new();
    let mut i: usize = 0;
    while i < data.len()
        invariant
            0 <= i <= data.len(),
            s == prices_of(data@),
            all_positive(s),
            p0 == s[0],
            timestamp@ == stamps_of(data@).take(i as int),
            reward@.len() == i,
            forall|j: int| 0 <= j < i ==> reward@[j] as int == normalized(s, j),
        decreases data.len() - i,
    {
        let p: u64 = data[i].price as u64;
        assert(p * ONE <= 0xffff_ffff * ONE) by (nonlinear_arith)
            requires p <= 0xffff_ffff;
        let v: u64 = p * ONE / p0;
        assert(stamps_of(data@).take(i + 1) =~= stamps_of(data@).take(i as int).push(data@[i as int].timestamp));
        timestamp.push(data[i].timestamp);
        reward.push(v);
        i = i + 1;
    }
    assert(stamps_of(data@).take(data.len() as int) =~= stamps_of(data@));
    assert(normalized(s, 0) == ONE) by (nonlinear_arith)
        requires s[0] > 0, normalized(s, 0) == s[0] * (ONE as int) / s[0];
    Ok(Qtable { timestamp, reward })
}

} // verus!
