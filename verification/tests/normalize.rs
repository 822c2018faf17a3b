use gudot::errors::GudotError;
use gudot::normalize::normalize;

#[test]
fn ascending_y_is_anchored_at_first_element() {
    let x: Vec<u32> = vec![5, 6, 7];
    let y: Vec<u32> = vec![1, 3, 9];
    let ((nx, ny), anchors) = normalize(&x, &y).unwrap();
    assert_eq!(nx, vec![0, 1, 2]);
    assert_eq!(ny, vec![0, 2, 8]);
    assert_eq!(anchors.x0, 5);
    assert_eq!(anchors.y0, 1);
    assert!(!anchors.descending);
}

#[test]
fn descending_y_is_flipped_to_distance_traveled() {
    let x: Vec<u32> = vec![0, 1, 2, 3];
    let y: Vec<u32> = vec![10, 7, 4, 1];
    let ((nx, ny), anchors) = normalize(&x, &y).unwrap();
    assert_eq!(nx, vec![0, 1, 2, 3]);
    assert_eq!(ny, vec![0, 3, 6, 9]);
    assert_eq!(anchors.x0, 0);
    assert_eq!(anchors.y0, 10);
    assert!(anchors.descending);
}

#[test]
fn empty_input_series_is_rejected() {
    let x: Vec<u32> = vec![];
    let y: Vec<u32> = vec![];
    assert_eq!(normalize(&x, &y), Err(GudotError::EmptyVector));
}

#[test]
fn x_below_its_anchor_is_a_domain_error() {
    let x: Vec<u32> = vec![5, 4, 6];
    let y: Vec<u32> = vec![1, 2, 3];
    assert_eq!(normalize(&x, &y), Err(GudotError::UnderflowError));
}

#[test]
fn descending_y_above_its_anchor_is_a_domain_error() {
    // last < first, so the series counts as descending, yet one element
    // lies above the anchor
    let x: Vec<u32> = vec![1, 2, 3];
    let y: Vec<u32> = vec![5, 9, 2];
    assert_eq!(normalize(&x, &y), Err(GudotError::UnderflowError));
}

#[test]
fn ascending_y_below_its_anchor_is_a_domain_error() {
    // last >= first, so the series counts as ascending, yet one element
    // dips below the anchor
    let x: Vec<u32> = vec![1, 2, 3];
    let y: Vec<u32> = vec![5, 2, 9];
    assert_eq!(normalize(&x, &y), Err(GudotError::UnderflowError));
}

#[test]
fn constant_y_counts_as_ascending() {
    let x: Vec<u32> = vec![1, 2];
    let y: Vec<u32> = vec![4, 4];
    let ((_, ny), anchors) = normalize(&x, &y).unwrap();
    assert_eq!(ny, vec![0, 0]);
    assert!(!anchors.descending);
}
