//! Kelly-criterion wealth trajectories over a price history, in exact
//! fixed-point arithmetic.
//!
//! Prices are positive integers in a unit of the caller's choice. Normalized
//! returns, one-step ratios, bin edges and wealth values are fixed-point
//! numbers with `ONE` standing for 1.0.
mod model;
mod normalize;
mod buckets;
mod engine;
mod laws;

pub use normalize::{normalize, price_min, price_max, prices_positive};
pub use buckets::{transition_ratios, bin_index, bucket_edges};
pub use engine::{kelly_outcome, kelly_fraction, rank_of, next_wealth, get_kelly, get_kelly_with_bins};
pub use laws::{count_total, bin_counts_cover_transitions, zero_edges_keep_wealth_flat, single_bin_uses_one_edge, flat_series_is_rejected};

pub use model::{Observation, Qtable, KellyError, ONE, DEFAULT_BINS};
pub use model::{
    prices_of, stamps_of, all_positive, valid_prices, normalized, seq_min, seq_max, ratio, bin_at,
    bin_of_price, bin_of, bin_count, bin_sum, edge, opt_int, rank_at, rank, kelly, step, walk,
};

