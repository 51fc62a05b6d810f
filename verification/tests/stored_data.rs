//! Statistics engine tests.

use hevn::{linear_regression, mean, std_dev};

#[test]
fn is_linear_regression() {
    let xs = [0, 1, 2, 3, 4];
    let ys = [-2, 0, 2, 4, 6];

    let res = linear_regression(&xs, &ys);
    assert_eq!(res.unwrap(), (2, -2));
}

#[test]
fn is_mean() {
    let xs = [1, 2, 3, 4, 5];
    let ys = [2, 4, 6, 8, 10];

    let res = mean(&xs);
    assert_eq!(res.unwrap(), 3);
    let res = mean(&ys);
    assert_eq!(res.unwrap(), 6);
}

#[test]
fn mean_of_empty_is_absent() {
    let xs: [i64; 0] = [];
    assert_eq!(mean(&xs), None);
}

#[test]
fn mean_rounds_toward_zero() {
    assert_eq!(mean(&[1, 2]).unwrap(), 1);
    assert_eq!(mean(&[-1, -2]).unwrap(), -1);
    assert_eq!(mean(&[-3, 0, 0]).unwrap(), -1);
}

#[test]
fn std_dev_needs_two_values() {
    assert_eq!(std_dev(&[], 0), None);
    assert_eq!(std_dev(&[7], 7), None);
}

#[test]
fn std_dev_exact_values() {
    // deviations from 4: -4, -2, 0, 2, 4; squares sum 40; denominator 4.
    assert_eq!(std_dev(&[0, 2, 4, 6, 8], 4).unwrap(), 10);
    // identical values have zero variance.
    assert_eq!(std_dev(&[5, 5, 5], 5).unwrap(), 0);
}

#[test]
fn linear_regression_of_empty_is_absent() {
    let xs: [i64; 0] = [];
    let ys: [i64; 0] = [];
    assert_eq!(linear_regression(&xs, &ys), None);
}

#[test]
fn linear_regression_degenerate_is_absent() {
    // all x-values identical: zero denominator.
    assert_eq!(linear_regression(&[3, 3, 3], &[1, 2, 3]), None);
}

#[test]
fn linear_regression_two_points() {
    // two distinct x-values are not degenerate.
    assert_eq!(linear_regression(&[0, 1], &[0, 1]).unwrap(), (1, 0));
}

#[test]
fn linear_regression_decreasing_fit() {
    let xs = [0, 1, 2, 3, 4];
    let ys = [9, 8, 7, 6, 5];
    assert_eq!(linear_regression(&xs, &ys).unwrap(), (-1, 9));
}
