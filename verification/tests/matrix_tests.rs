use matrix_engine::Error;
use matrix_engine::Matrix;
use matrix_engine::Vector;
use matrix_engine::dot_product;
use matrix_engine::matrix::MsgInput;
use matrix_engine::matrix::MsgOutput;
use matrix_engine::matrix::collect_results;
use matrix_engine::matrix::distribute_work;
use matrix_engine::matrix::make_item;
use matrix_engine::matrix::multiply;
use matrix_engine::matrix::multiply_with_workers;
use matrix_engine::matrix::run_worker;

#[test]
fn test_matrix_multiply() {
    let a = Matrix::new(vec![1, 2, 3, 4, 5, 6], 2, 3);
    let b = Matrix::new(vec![1, 2, 3, 4, 5, 6], 3, 2);
    let c = multiply(&a, &b).expect("matrix multiply error");
    assert_eq!(c.data, vec![22, 28, 49, 64]);
    assert_eq!(c.row, 2);
    assert_eq!(c.col, 2);
}

#[test]
fn test_dimension_mismatch() {
    let a = Matrix::new(vec![1, 2, 3, 4, 5, 6], 2, 3);
    let b = Matrix::new(vec![1, 2, 3, 4], 2, 2);
    let r = multiply(&a, &b);
    assert!(matches!(r, Err(Error::DimensionMismatch)));
}

#[test]
fn test_empty_rows() {
    let a = Matrix::new(vec![], 0, 3);
    let b = Matrix::new(vec![1, 2, 3, 4, 5, 6, 7, 8, 9, 10, 11, 12], 3, 4);
    let c = multiply(&a, &b).expect("empty-row multiply failed");
    assert_eq!(c.data, Vec::<i64>::new());
    assert_eq!(c.row, 0);
    assert_eq!(c.col, 4);
}

#[test]
fn test_empty_cols() {
    let a = Matrix::new(vec![1, 2, 3, 4, 5, 6], 2, 3);
    let b = Matrix::new(vec![], 3, 0);
    let c = multiply(&a, &b).expect("empty-column multiply failed");
    assert_eq!(c.data, Vec::<i64>::new());
    assert_eq!(c.row, 2);
    assert_eq!(c.col, 0);
}

#[test]
fn test_single_cell() {
    let a = Matrix::new(vec![7], 1, 1);
    let b = Matrix::new(vec![-3], 1, 1);
    let c = multiply(&a, &b).expect("single-cell multiply failed");
    assert_eq!(c.data, vec![-21]);
}

#[test]
fn test_worker_count_invariance() {
    let a = Matrix::new(vec![1, -2, 3, 4, 5, -6, 7, 8, 9, -10, 11, 12], 3, 4);
    let b = Matrix::new(vec![2, 0, -1, 1, 3, 5, 4, -4, 0, 2, 6, 1], 4, 3);
    let one = multiply_with_workers(&a, &b, 1).expect("one-worker run failed");
    let eight = multiply_with_workers(&a, &b, 8).expect("eight-worker run failed");
    assert_eq!(one.data, eight.data);
    assert_eq!(one.row, eight.row);
    assert_eq!(one.col, eight.col);
}

#[test]
fn test_replies_collected_out_of_order() {
    let a = Matrix::new(vec![1, 2, 3, 4, 5, 6], 2, 3);
    let b = Matrix::new(vec![1, 2, 3, 4, 5, 6], 3, 2);
    let queues = distribute_work(&a, &b, 3);
    let mut replies: Vec<MsgOutput> = Vec::new();
    for q in &queues {
        let outs = run_worker(q).expect("worker failed");
        replies.extend(outs);
    }
    // Deliver the replies in reversed arrival order: each carries its own
    // cell index, so the assembled matrix must come out the same.
    replies.reverse();
    let c = collect_results(&replies, 2, 2);
    assert_eq!(c.data, vec![22, 28, 49, 64]);
}

#[test]
fn test_make_item_slices() {
    let a = Matrix::new(vec![1, 2, 3, 4, 5, 6], 2, 3);
    let b = Matrix::new(vec![1, 2, 3, 4, 5, 6], 3, 2);
    // Cell 3 is row 1, column 1: row [4, 5, 6] of a, column [2, 4, 6] of b.
    let it = make_item(&a, &b, 3);
    assert_eq!(it.idx, 3);
    assert_eq!(it.row.data, vec![4, 5, 6]);
    assert_eq!(it.col.data, vec![2, 4, 6]);
}

#[test]
fn test_dot_product_value() {
    let a = Vector::new(vec![1, 2, 3]);
    let b = Vector::new(vec![4, 5, 6]);
    assert_eq!(dot_product(&a, &b), Ok(32));
}

#[test]
fn test_dot_product_empty() {
    let a = Vector::new(vec![]);
    let b = Vector::new(vec![]);
    assert_eq!(dot_product(&a, &b), Ok(0));
}

#[test]
fn test_dot_product_length_mismatch() {
    let a = Vector::new(vec![1, 2, 3]);
    let b = Vector::new(vec![4, 5]);
    assert_eq!(dot_product(&a, &b), Err(Error::LengthMismatch));
}

#[test]
fn test_dot_product_wraps() {
    let a = Vector::new(vec![i64::MAX, 1]);
    let b = Vector::new(vec![2, 5]);
    let expected = i64::MAX.wrapping_mul(2).wrapping_add(5);
    assert_eq!(dot_product(&a, &b), Ok(expected));
}

#[test]
fn test_worker_reports_bad_item() {
    let items = vec![MsgInput::new(0, vec![1, 2], vec![3])];
    assert!(matches!(run_worker(&items), Err(Error::LengthMismatch)));
}

#[test]
fn test_constructors() {
    let v = Vector::new(vec![9, 8]);
    assert_eq!(v.data, vec![9, 8]);
    let m = Matrix::new(vec![1, 2, 3, 4], 2, 2);
    assert_eq!(m.data, vec![1, 2, 3, 4]);
    assert_eq!((m.row, m.col), (2, 2));
    let it = MsgInput::new(5, vec![1], vec![2]);
    assert_eq!(it.idx, 5);
    assert_eq!(it.row.data, vec![1]);
    assert_eq!(it.col.data, vec![2]);
}
