use sanos::grid::LogMoneynessQuantiles;
use sanos::grid::strikes::{
    apply_hard_caps, enforce_min_spacing, is_too_close_to_any_sorted, merge_market_and_quantiles,
    pick_evenly_spaced, sort_and_dedup_strikes, UNIQUE_TOL,
};

#[test]
fn sort_and_dedup_drops_non_positive_and_near_duplicates() {
    let out = sort_and_dedup_strikes(vec![30, -5, 10, 0, 11, 20, 10, 13]);
    assert_eq!(out, vec![10, 13, 20, 30]);
    assert_eq!(UNIQUE_TOL, 1);
    assert!(sort_and_dedup_strikes(vec![]).is_empty());
}

#[test]
fn min_spacing_keeps_first_and_spaced_strikes() {
    assert_eq!(enforce_min_spacing(vec![10, 12, 15, 16, 25], Some(5)), vec![10, 15, 25]);
    assert_eq!(enforce_min_spacing(vec![10, 12], None), vec![10, 12]);
    assert_eq!(enforce_min_spacing(vec![10, 12], Some(0)), vec![10, 12]);
}

#[test]
fn hard_caps_clamp_each_strike() {
    assert_eq!(apply_hard_caps(vec![5, 15, 25], Some(10), Some(20)), vec![10, 15, 20]);
    assert_eq!(apply_hard_caps(vec![5, 25], None, Some(20)), vec![5, 20]);
    // the upper cap is applied last
    assert_eq!(apply_hard_caps(vec![5], Some(30), Some(20)), vec![20]);
}

#[test]
fn proximity_checks_neighbours_of_sorted_values() {
    let v = [10, 20, 30];
    assert!(is_too_close_to_any_sorted(&v, 22, 2));
    assert!(is_too_close_to_any_sorted(&v, 18, 2));
    assert!(!is_too_close_to_any_sorted(&v, 25, 2));
    assert!(is_too_close_to_any_sorted(&v, 35, 5));
    assert!(!is_too_close_to_any_sorted(&[], 35, 5));
}

#[test]
fn evenly_spaced_picks_by_index() {
    let v = [1, 2, 3, 4, 5, 6, 7];
    assert_eq!(pick_evenly_spaced(&v, 3), vec![1, 4, 7]);
    assert_eq!(pick_evenly_spaced(&v, 1), vec![4]);
    assert_eq!(pick_evenly_spaced(&v, 0), Vec::<i64>::new());
    assert_eq!(pick_evenly_spaced(&v, 9), v.to_vec());
    assert_eq!(pick_evenly_spaced(&v, 4), vec![1, 3, 5, 7]);
}

#[test]
fn merge_fills_up_to_target_with_distant_quantiles() {
    let market = [30, 10, 20];
    let quantiles = [5, 11, 15, 25, 40, 50];
    // 11 is within 2 of the market strike 10 and is left out
    let out = merge_market_and_quantiles(&market, &quantiles, 5, 2);
    assert_eq!(out, vec![5, 10, 20, 30, 50]);
    // enough market strikes: nothing is added
    assert_eq!(merge_market_and_quantiles(&market, &quantiles, 3, 2), vec![10, 20, 30]);
}

#[test]
fn quantile_grid_assembly_downsamples_merges_and_caps() {
    let mut p = LogMoneynessQuantiles {
        n: 3,
        include_market_strikes: false,
        k_min: Some(15),
        k_max: Some(45),
        ..LogMoneynessQuantiles::default()
    };
    // sorted and de-duplicated to 10..50, down-sampled to 10, 30, 50, capped
    assert_eq!(p.assemble_strikes(vec![50, 10, 30, 20, 40, 10], &[]), vec![15, 30, 45]);
    p.k_min = None;
    p.k_max = None;
    p.n = 5;
    p.include_market_strikes = true;
    p.min_spacing = Some(2);
    assert_eq!(
        p.assemble_strikes(vec![5, 11, 15, 25, 40, 50], &[30, 10, 20]),
        vec![5, 10, 20, 30, 50]
    );
}
