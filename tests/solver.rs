use lasso::linalg::{Error, Matrix};
use lasso::{lasso_step, linear_regression_step, mse_gradient, simple_lasso, soft_threshold};

fn filled_from(width: usize, values: &[i64]) -> Matrix<i64> {
    let height = values.len() / width;
    let mut m: Matrix<i64> = Matrix::new(width, height);
    for (k, v) in values.iter().enumerate() {
        m.set(k % width, k / width, *v).unwrap();
    }
    m
}

fn column_values(m: &Matrix<i64>) -> Vec<i64> {
    let mut out = Vec::new();
    for j in 0..m.height() {
        for i in 0..m.width() {
            out.push(m.get(i, j).unwrap());
        }
    }
    out
}

#[test]
fn regression_at_solution_stays_put() {
    let data = filled_from(3, &[0, 1, 2, 3, 4, 5, 6, 7, 8]);
    let target = filled_from(1, &[5, 14, 23]);
    let initial_w = filled_from(1, &[0, 1, 2]);
    let result = simple_lasso(&data, &target, &initial_w, 1, 0, 1000).unwrap();
    assert_eq!(column_values(&result), vec![0, 1, 2]);
    assert_eq!(result.width(), 1);
    assert_eq!(result.height(), 3);
}

#[test]
fn gradient_of_single_sample() {
    let data = filled_from(2, &[1, 2]);
    let target = filled_from(1, &[1]);
    let w = filled_from(1, &[1, 1]);
    let gradient = mse_gradient(&data, &target, &w).unwrap();
    assert_eq!(column_values(&gradient), vec![2, 4]);
}

#[test]
fn gradient_zero_at_solution() {
    let data = filled_from(2, &[1, 2]);
    let target = filled_from(1, &[3]);
    let w = filled_from(1, &[1, 1]);
    let gradient = mse_gradient(&data, &target, &w).unwrap();
    assert_eq!(column_values(&gradient), vec![0, 0]);
}

#[test]
fn integer_reciprocal_of_three_samples_is_zero() {
    let data = filled_from(3, &[0, 1, 2, 3, 4, 5, 6, 7, 8]);
    let target = filled_from(1, &[5, 14, 23]);
    let w = filled_from(1, &[1, 1, 1]);
    let gradient = mse_gradient(&data, &target, &w).unwrap();
    assert_eq!(column_values(&gradient), vec![0, 0, 0]);
}

#[test]
fn regression_step_moves_against_gradient() {
    let data = filled_from(2, &[1, 2]);
    let target = filled_from(1, &[1]);
    let w = filled_from(1, &[1, 1]);
    let next = linear_regression_step(&data, &target, &w, 1).unwrap();
    assert_eq!(column_values(&next), vec![-3, -7]);
}

#[test]
fn lasso_step_thresholds_regression_step() {
    let data = filled_from(2, &[1, 2]);
    let target = filled_from(1, &[1]);
    let w = filled_from(1, &[1, 1]);
    let next = lasso_step(&data, &target, &w, 1, 2).unwrap();
    assert_eq!(column_values(&next), vec![-1, -5]);
}

#[test]
fn lasso_two_steps() {
    let data = filled_from(2, &[1, 2]);
    let target = filled_from(1, &[1]);
    let w = filled_from(1, &[1, 1]);
    let result = simple_lasso(&data, &target, &w, 1, 2, 2).unwrap();
    assert_eq!(column_values(&result), vec![21, 41]);
}

#[test]
fn lasso_zero_steps_returns_initial_weights() {
    let data = filled_from(2, &[1, 2]);
    let target = filled_from(1, &[1]);
    let w = filled_from(1, &[7, 8, 9]);
    let result = simple_lasso(&data, &target, &w, 1, 2, 0).unwrap();
    assert_eq!(column_values(&result), vec![7, 8, 9]);
}

#[test]
fn lasso_without_samples_only_thresholds() {
    let data: Matrix<i64> = Matrix::new(2, 0);
    let target: Matrix<i64> = Matrix::new(1, 0);
    let w = filled_from(1, &[5, -1]);
    let result = simple_lasso(&data, &target, &w, 1, 1, 1).unwrap();
    assert_eq!(column_values(&result), vec![4, 0]);
}

#[test]
fn gradient_fails_on_empty_target() {
    let data = filled_from(2, &[1, 2]);
    let target: Matrix<i64> = Matrix::new(1, 0);
    let w = filled_from(1, &[1, 1]);
    assert!(matches!(mse_gradient(&data, &target, &w), Err(Error::IndexOutOfRange)));
}

#[test]
fn gradient_fails_on_weights_of_wrong_height() {
    let data = filled_from(2, &[1, 2]);
    let target = filled_from(1, &[1]);
    let w = filled_from(1, &[1, 1, 1]);
    assert!(matches!(mse_gradient(&data, &target, &w), Err(Error::SizeMismatch)));
}

#[test]
fn gradient_fails_on_short_target() {
    let data = filled_from(2, &[1, 2, 3, 4]);
    let target = filled_from(1, &[1]);
    let w = filled_from(1, &[1, 1]);
    assert!(matches!(mse_gradient(&data, &target, &w), Err(Error::IndexOutOfRange)));
}

#[test]
fn lasso_passes_errors_through() {
    let data = filled_from(2, &[1, 2]);
    let target = filled_from(1, &[1]);
    let w = filled_from(2, &[1, 1]);
    let result = simple_lasso(&data, &target, &w, 1, 0, 5);
    assert!(matches!(result, Err(Error::SizeMismatch)));
}

#[test]
fn soft_threshold_values() {
    let m = filled_from(1, &[5, -5, 2, 0, -3, 3]);
    let once = soft_threshold(&m, 3);
    assert_eq!(column_values(&once), vec![2, -2, 0, 0, 0, 0]);
    assert_eq!(once.width(), 1);
    assert_eq!(once.height(), 6);
}

#[test]
fn soft_threshold_twice_never_crosses_zero() {
    let m = filled_from(2, &[10, -10, 4, -4]);
    let once = soft_threshold(&m, 3);
    let twice = soft_threshold(&once, 3);
    let double = soft_threshold(&m, 6);
    assert_eq!(column_values(&once), vec![7, -7, 1, -1]);
    assert_eq!(column_values(&twice), vec![4, -4, 0, 0]);
    assert_eq!(column_values(&twice), column_values(&double));
    let thrice = soft_threshold(&twice, 3);
    assert_eq!(column_values(&thrice), vec![1, -1, 0, 0]);
}

#[test]
fn soft_threshold_with_zero_lambda_is_identity() {
    let m = filled_from(1, &[3, -2, 0]);
    let result = soft_threshold(&m, 0);
    assert_eq!(column_values(&result), vec![3, -2, 0]);
}
