use gudot::errors::GudotError;
use gudot::regress::regression_summary;

#[test]
fn summary_holds_sums_and_bounding_box() {
    let fitted: Vec<(u32, u32)> = vec![(7, 1), (11, 13)];
    let x: Vec<u32> = vec![0, 1, 2, 3];
    let y: Vec<u32> = vec![10, 7, 4, 1];
    let s = regression_summary(&fitted, &x, &y).unwrap();
    assert_eq!(s.sum_a, 18);
    assert_eq!(s.sum_b, 14);
    assert_eq!(s.min_x, 0);
    assert_eq!(s.max_x, 3);
    assert_eq!(s.min_y, 1);
    assert_eq!(s.max_y, 10);
}

#[test]
fn empty_bounding_box_series_is_rejected() {
    let fitted: Vec<(u32, u32)> = vec![(1, 2)];
    let x: Vec<u32> = vec![];
    let y: Vec<u32> = vec![3];
    assert_eq!(regression_summary(&fitted, &x, &y), Err(GudotError::EmptyVector));
}

#[test]
fn fitted_model_matches_the_hand_computed_line() {
    // slope = -(18) / 14, intercept = (min_y + max_y - slope * (min_x + max_x)) / 2;
    // the two final float ratios are the embedding program's step, computed
    // here from the summary the library pins down.
    let fitted: Vec<(u32, u32)> = vec![(18, 14)];
    let x: Vec<u32> = vec![0, 1, 2, 3];
    let y: Vec<u32> = vec![10, 7, 4, 1];
    let s = regression_summary(&fitted, &x, &y).unwrap();
    let slope = -1.0 * s.sum_a as f64 / s.sum_b as f64;
    let intercept = (s.min_y as f64 + s.max_y as f64 - slope * (s.min_x as f64 + s.max_x as f64))
        / 2.0;
    assert!((slope + 18.0 / 14.0).abs() < 1e-12);
    assert!((intercept - (11.0 + (18.0 / 14.0) * 3.0) / 2.0).abs() < 1e-12);
}
