use kelly_plot::{
    bin_index, bucket_edges, get_kelly, get_kelly_with_bins, kelly_fraction, next_wealth,
    normalize, price_max, price_min, rank_of, transition_ratios, KellyError, Observation, ONE,
};

fn history(prices: &[u32]) -> Vec<Observation> {
    prices
        .iter()
        .enumerate()
        .map(|(i, p)| Observation { timestamp: i as i64, price: *p })
        .collect()
}

#[test]
fn scenario_four_prices_two_bins() {
    // 100, 110, 121, 108.9 in tenths.
    let data = history(&[1000, 1100, 1210, 1089]);
    let n = normalize(&data).unwrap();
    assert_eq!(n.reward, vec![ONE, 1_100_000_000, 1_210_000_000, 1_089_000_000]);
    assert_eq!(n.timestamp, vec![0, 1, 2, 3]);
    assert_eq!(transition_ratios(&data), vec![100_000_000, 100_000_000, -100_000_000]);
    assert_eq!(price_min(&data), 1000);
    assert_eq!(price_max(&data), 1210);
    assert_eq!(bin_index(1000, 1000, 1210, 2), 0);
    assert_eq!(bin_index(1100, 1000, 1210, 2), 0);
    assert_eq!(bin_index(1210, 1000, 1210, 2), 1);
    assert_eq!(bucket_edges(&data, 2), vec![Some(100_000_000), Some(-100_000_000)]);
    let (all_in, kelly) = get_kelly_with_bins(&data, 2).unwrap();
    assert_eq!(all_in.timestamp, vec![0, 1, 2, 3]);
    assert_eq!(kelly.timestamp, vec![0, 1, 2, 3]);
    assert_eq!(all_in.reward, vec![1000 * ONE, 1100 * ONE, 1210 * ONE, 1089 * ONE]);
    assert_eq!(kelly.reward[0], 1000 * ONE);
    assert!(kelly.reward[1] > 1000 * ONE);
    assert_eq!(kelly.reward, vec![1000 * ONE, 1100 * ONE, 1210 * ONE, 1089 * ONE]);
}

#[test]
fn normalized_series_starts_at_one() {
    let data = history(&[37, 12, 99, 37]);
    let n = normalize(&data).unwrap();
    assert_eq!(n.reward[0], ONE);
    assert_eq!(n.reward[1], 12 * ONE / 37);
    assert_eq!(n.reward.len(), 4);
}

#[test]
fn normalize_rejects_empty_and_zero_prices() {
    assert_eq!(normalize(&Vec::new()).unwrap_err(), KellyError::EmptyInputError);
    assert_eq!(normalize(&history(&[5, 0, 7])).unwrap_err(), KellyError::InvalidPriceError);
    assert_eq!(normalize(&history(&[0, 5])).unwrap_err(), KellyError::InvalidPriceError);
}

#[test]
fn one_ratio_per_consecutive_pair() {
    let data = history(&[100, 100, 100, 300, 150]);
    let r = transition_ratios(&data);
    assert_eq!(r.len(), 4);
    assert_eq!(r, vec![0, 0, 2 * ONE as i64, -(ONE as i64) / 2]);
}

#[test]
fn ratio_rounds_down() {
    // (2 - 3) / 3 = -0.333...
    assert_eq!(transition_ratios(&history(&[3, 2])), vec![-333_333_334]);
    assert_eq!(transition_ratios(&history(&[3, 4])), vec![333_333_333]);
}

#[test]
fn bin_counts_add_up_to_transitions() {
    let data = history(&[1000, 1100, 1210, 1089, 1210, 1000, 1050]);
    let lo = price_min(&data);
    let hi = price_max(&data);
    let bins = 3;
    let mut counts = vec![0usize; bins];
    for o in &data[..data.len() - 1] {
        counts[bin_index(o.price, lo, hi, bins)] += 1;
    }
    assert_eq!(counts.iter().sum::<usize>(), data.len() - 1);
}

#[test]
fn empty_bin_has_no_edge() {
    assert_eq!(bucket_edges(&history(&[100, 200]), 2), vec![Some(ONE as i128), None]);
}

#[test]
fn undefined_bin_is_an_error() {
    assert_eq!(get_kelly_with_bins(&history(&[100, 200]), 2).unwrap_err(), KellyError::UndefinedBinError);
}

#[test]
fn too_short_input_is_rejected() {
    assert_eq!(get_kelly(history(&[100])).unwrap_err(), KellyError::EmptyInputError);
    assert_eq!(get_kelly(Vec::new()).unwrap_err(), KellyError::EmptyInputError);
}

#[test]
fn zero_price_is_rejected() {
    assert_eq!(get_kelly(history(&[100, 0, 120])).unwrap_err(), KellyError::InvalidPriceError);
}

#[test]
fn flat_series_is_degenerate() {
    assert_eq!(get_kelly(history(&[50, 50, 50, 50])).unwrap_err(), KellyError::InvalidPriceError);
    assert_eq!(get_kelly_with_bins(&history(&[7, 7]), 1).unwrap_err(), KellyError::InvalidPriceError);
}

#[test]
fn zero_edges_keep_wealth_flat() {
    // ratios 1, -1/2, -1/2 average to zero in the single bin
    let data = history(&[100, 200, 100, 50]);
    assert_eq!(bucket_edges(&data, 1), vec![Some(0)]);
    let (all_in, kelly) = get_kelly_with_bins(&data, 1).unwrap();
    assert_eq!(kelly.reward, vec![100 * ONE; 4]);
    assert_eq!(all_in.reward, vec![100 * ONE, 200 * ONE, 100 * ONE, 50 * ONE]);
}

#[test]
fn single_bin_ranks_every_wealth_at_zero() {
    for w in [0u64, 1, ONE, 100 * ONE, u64::MAX] {
        assert_eq!(rank_of(w, 100, 90, 130, 1), 0);
    }
}

#[test]
fn trajectories_have_input_length() {
    let data = history(&[120, 80, 100, 90, 140, 60, 100, 110, 95, 130]);
    let (all_in, kelly) = get_kelly_with_bins(&data, 1).unwrap();
    assert_eq!(all_in.reward.len(), data.len());
    assert_eq!(kelly.reward.len(), data.len());
    assert_eq!(all_in.timestamp.len(), data.len());
}

#[test]
fn default_bins_walk() {
    // the first wealth lands in the top bin, which holds the first transition
    let data = history(&[20, 10, 15]);
    let (_, kelly) = get_kelly(data).unwrap();
    assert_eq!(kelly.reward, vec![20 * ONE, 10 * ONE, 15 * ONE]);
}

#[test]
fn default_bins_empty_top_bin() {
    // the top bin holds no transition, as the maximum comes last
    assert_eq!(get_kelly(history(&[10, 5, 20])).unwrap_err(), KellyError::UndefinedBinError);
}

#[test]
fn kelly_fraction_is_all_or_nothing() {
    assert_eq!(kelly_fraction(0), 0);
    assert_eq!(kelly_fraction(100_000_000), ONE);
    assert_eq!(kelly_fraction(-5), ONE);
}

#[test]
fn rank_at_range_boundaries() {
    // normalized range [1.0, 2.0] for p0 = lo = 100, hi = 200
    assert_eq!(rank_of(ONE, 100, 100, 200, 4), 0);
    assert_eq!(rank_of(2 * ONE, 100, 100, 200, 4), 3);
    assert_eq!(rank_of(ONE / 2, 100, 100, 200, 4), 0);
    assert_eq!(rank_of(3 * ONE / 2, 100, 100, 200, 4), 2);
    assert_eq!(rank_of(5 * ONE, 100, 100, 200, 4), 3);
}

#[test]
fn next_wealth_blends() {
    assert_eq!(next_wealth(100 * ONE, ONE, 110, 100), Some(110 * ONE));
    assert_eq!(next_wealth(100 * ONE, 0, 110, 100), Some(100 * ONE));
    assert_eq!(next_wealth(100 * ONE, ONE / 2, 110, 100), Some(105 * ONE));
    assert_eq!(next_wealth(u64::MAX, ONE, 2, 1), None);
}
