use std::cell::Cell;

use linear_regression::design::{design_matrix, features, targets};
use linear_regression::fields::split_fields;
use linear_regression::loader::scan;
use linear_regression::matrix::Matrix;
use linear_regression::optimizer::gradient_descent;
use ndarray::{Array1, Array2, Axis};

fn to_array(m: Matrix<f64>) -> Array2<f64> {
    let shape = (m.rows(), m.cols());
    Array2::from_shape_vec(shape, m.into_vec()).unwrap()
}

fn to_matrix(a: &Array2<f64>) -> Matrix<f64> {
    Matrix::from_shape_vec(a.nrows(), a.ncols(), a.iter().cloned().collect()).unwrap()
}

fn normalize(features: Array2<f64>) -> Array2<f64> {
    let mean: Array1<f64> = features.mean_axis(Axis(0)).unwrap();
    let std_dev: Array1<f64> = features.std_axis(Axis(0), 0.0);
    (features - mean) / std_dev
}

fn load(text: &[&str]) -> Matrix<f64> {
    let lines: Vec<Vec<u8>> = text.iter().map(|l| l.as_bytes().to_vec()).collect();
    let shape = scan(&lines).unwrap();
    let mut data: Vec<f64> = Vec::new();
    for line in text {
        for span in split_fields(line.as_bytes()) {
            data.push(line[span.start..span.end].parse::<f64>().unwrap());
        }
    }
    Matrix::from_shape_vec(shape.rows, shape.cols, data).unwrap()
}

fn train(text: &[&str], learning_rate: f64, number_of_iterations: i32) -> Vec<f64> {
    let dataset = load(text);
    let normalized = to_matrix(&normalize(to_array(features(&dataset))));
    let x = to_array(design_matrix(&normalized, 1.0));
    let y = to_array(targets(&dataset));
    let coefficient = learning_rate / (x.nrows() as f64);
    let update = |theta: Matrix<f64>| -> Matrix<f64> {
        let theta = to_array(theta);
        let predictions = x.dot(&theta);
        let difference = &predictions - &y;
        let error = x.t().dot(&difference);
        to_matrix(&(theta - error * coefficient))
    };
    gradient_descent(x.ncols(), 0.0, update, number_of_iterations).into_vec()
}

fn close(a: f64, b: f64, tolerance: f64) -> bool {
    (a - b).abs() <= tolerance
}

#[test]
fn no_iterations_return_the_zero_vector() {
    let calls = Cell::new(0);
    let update = |theta: Matrix<f64>| -> Matrix<f64> {
        calls.set(calls.get() + 1);
        theta
    };
    let theta = gradient_descent(3, 0.0, update, 0);
    assert_eq!((theta.rows(), theta.cols()), (3, 1));
    assert_eq!(theta.into_vec(), vec![0.0, 0.0, 0.0]);
    assert_eq!(calls.get(), 0);
}

#[test]
fn negative_iteration_count_asks_for_none() {
    let calls = Cell::new(0);
    let update = |_theta: Matrix<i64>| -> Matrix<i64> {
        calls.set(calls.get() + 1);
        Matrix::filled(2, 1, 99)
    };
    let theta = gradient_descent(2, 0, update, -5);
    assert_eq!(theta.into_vec(), vec![0, 0]);
    assert_eq!(calls.get(), 0);
}

#[test]
fn update_is_applied_exactly_as_often_as_asked() {
    let calls = Cell::new(0);
    let update = |theta: Matrix<i64>| -> Matrix<i64> {
        calls.set(calls.get() + 1);
        let next: Vec<i64> = theta.into_vec().iter().map(|v| v + 1).collect();
        Matrix::from_shape_vec(next.len(), 1, next).unwrap()
    };
    let theta = gradient_descent(4, 0, update, 500);
    assert_eq!(calls.get(), 500);
    assert_eq!(theta.into_vec(), vec![500, 500, 500, 500]);
}

#[test]
fn each_update_works_on_the_result_of_the_one_before() {
    let update = |theta: Matrix<i64>| -> Matrix<i64> {
        let next: Vec<i64> = theta.into_vec().iter().map(|v| 2 * v + 1).collect();
        Matrix::from_shape_vec(next.len(), 1, next).unwrap()
    };
    assert_eq!(gradient_descent(1, 0, update, 10).into_vec(), vec![1023]);
}

#[test]
fn one_iteration_from_zero() {
    let theta = train(&["1,1,2", "2,2,4"], 0.01, 1);
    assert_eq!(theta.len(), 3);
    assert!(close(theta[0], 0.03, 1e-12));
    assert!(close(theta[1], 0.01, 1e-12));
    assert!(close(theta[2], 0.01, 1e-12));
}

#[test]
fn two_rows_five_hundred_iterations() {
    let theta = train(&["1,1,2", "2,2,4"], 0.01, 500);
    assert_eq!(theta.len(), 3);
    assert!(close(theta[0], 2.980288550872755, 1e-9));
    assert!(close(theta[1], 0.49997948800742736, 1e-9));
    assert!(close(theta[2], 0.49997948800742736, 1e-9));
    assert!(close(theta[0], 3.0 * (1.0 - 0.99f64.powi(500)), 1e-9));
    assert!(close(theta[1], 0.5 * (1.0 - 0.98f64.powi(500)), 1e-9));
}

#[test]
fn exact_line_is_recovered() {
    // y = 2x + 3 on x = 1..5: mean 3, population deviation sqrt(2)
    let theta = train(&["1,5", "2,7", "3,9", "4,11", "5,13"], 0.1, 1000);
    assert_eq!(theta.len(), 2);
    let mean = 3.0;
    let deviation = 2.0f64.sqrt();
    let slope = theta[1] / deviation;
    let intercept = theta[0] - theta[1] * mean / deviation;
    assert!(close(slope, 2.0, 1e-2));
    assert!(close(intercept, 3.0, 1e-2));
    assert!(close(theta[0], 9.0, 1e-9));
    assert!(close(theta[1], 2.0 * deviation, 1e-9));
}

#[test]
fn two_runs_give_the_same_bits() {
    let text = ["2104,3,399900", "1600,3,329900", "2400,3.5,369000", "1416,2,232000", "3000,4,539900"];
    let one: Vec<u64> = train(&text, 0.01, 500).iter().map(|v| v.to_bits()).collect();
    let other: Vec<u64> = train(&text, 0.01, 500).iter().map(|v| v.to_bits()).collect();
    assert_eq!(one.len(), 3);
    assert_eq!(one, other);
}

#[test]
fn normalized_columns_have_mean_zero_and_deviation_one() {
    let dataset = load(&["2104,3,399900", "1600,3.5,329900", "2400,2,369000", "1416,4,232000"]);
    let normalized = to_matrix(&normalize(to_array(features(&dataset))));
    assert_eq!((normalized.rows(), normalized.cols()), (4, 2));
    for c in 0..normalized.cols() {
        let column: Vec<f64> = (0..normalized.rows()).map(|r| normalized.get(r, c)).collect();
        let n = column.len() as f64;
        let mean = column.iter().sum::<f64>() / n;
        let variance = column.iter().map(|v| (v - mean) * (v - mean)).sum::<f64>() / n;
        assert!(close(mean, 0.0, 1e-12));
        assert!(close(variance.sqrt(), 1.0, 1e-12));
    }
}

#[test]
fn pipeline_keeps_targets_and_bias() {
    let dataset = load(&["1,1,2", "2,2,4"]);
    let normalized = to_matrix(&normalize(to_array(features(&dataset))));
    let x = design_matrix(&normalized, 1.0);
    let y = targets(&dataset);
    assert_eq!(x.into_vec(), vec![1.0, -1.0, -1.0, 1.0, 1.0, 1.0]);
    assert_eq!(y.into_vec(), vec![2.0, 4.0]);
}
