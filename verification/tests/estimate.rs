use gudot::aggregate::AggregateResult;
use gudot::errors::GudotError;
use gudot::estimate::estimate;
use gudot::normalize::AnchorValues;

#[test]
fn zero_square_sum_is_division_by_zero() {
    let agg = AggregateResult { a: 18, b: 0 };
    let anchors = AnchorValues { x0: 0, y0: 10, descending: true };
    assert_eq!(estimate(&agg, &anchors), Err(GudotError::DivisionByZero));
}

#[test]
fn zero_velocity_is_division_by_zero() {
    let agg = AggregateResult { a: 0, b: 14 };
    let anchors = AnchorValues { x0: 0, y0: 10, descending: true };
    assert_eq!(estimate(&agg, &anchors), Err(GudotError::DivisionByZero));
}

#[test]
fn scenario_velocity_in_milli_units() {
    // v = 18/14 = 1.2857...; round(1000 * v) = 1286
    let agg = AggregateResult { a: 18, b: 14 };
    let anchors = AnchorValues { x0: 0, y0: 10, descending: true };
    let est = estimate(&agg, &anchors).unwrap();
    assert_eq!(est.milli_velocity, 1286);
    // remaining = round(y0 / v) = round(10 * 14 / 18) = round(7.78) = 8
    assert_eq!(est.remaining, 8);
    assert_eq!(est.arrival, 8);
}

#[test]
fn arrival_is_rendered_as_hours_minutes_seconds() {
    let agg = AggregateResult { a: 18, b: 14 };
    let anchors = AnchorValues { x0: 9 * 3600, y0: 10, descending: true };
    let est = estimate(&agg, &anchors).unwrap();
    assert_eq!(est.arrival, 9 * 3600 + 8);
    assert_eq!(est.hours, 9);
    assert_eq!(est.minutes, 0);
    assert_eq!(est.seconds, 8);
}

#[test]
fn exact_ratio_rounds_half_up() {
    // v = 3/2: round(1500) = 1500; remaining = round(y0 * 2 / 3)
    // with y0 = 1: round(0.66..) = 1
    let agg = AggregateResult { a: 3, b: 2 };
    let anchors = AnchorValues { x0: 100, y0: 1, descending: true };
    let est = estimate(&agg, &anchors).unwrap();
    assert_eq!(est.milli_velocity, 1500);
    assert_eq!(est.remaining, 1);
    assert_eq!(est.arrival, 101);
    // half-way case: v = 1/2 gives milli = round(500.0) = 500;
    // remaining = round(1 * 2 / 1) = 2
    let agg2 = AggregateResult { a: 1, b: 2 };
    let est2 = estimate(&agg2, &anchors).unwrap();
    assert_eq!(est2.milli_velocity, 500);
    assert_eq!(est2.remaining, 2);
}

#[test]
fn raw_hour_count_may_exceed_a_day() {
    let agg = AggregateResult { a: 1, b: 1 };
    let anchors = AnchorValues { x0: 200000, y0: 0, descending: false };
    let est = estimate(&agg, &anchors).unwrap();
    // remaining = round(0 / 1) = (0 + 1) / 2 = 0
    assert_eq!(est.remaining, 0);
    assert_eq!(est.arrival, 200000);
    assert_eq!(est.hours, 55);
    assert_eq!(est.minutes, 33);
    assert_eq!(est.seconds, 20);
}
