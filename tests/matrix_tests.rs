use linalg::math::matrix::Matrix;
use linalg::math::vector::Vector;
use linalg::math::MathError;

fn m(rows: usize, cols: usize, xs: &[i64]) -> Matrix<i64> {
    Matrix::from_vec(rows, cols, xs.to_vec()).unwrap()
}

#[test]
fn factories() {
    let z: Matrix<i64> = Matrix::zeroes(2, 3);
    assert_eq!((z.rows, z.cols), (2, 3));
    assert_eq!(z.data, vec![0; 6]);
    let n: Matrix<i64> = Matrix::new(3, 1);
    assert_eq!(n.data, vec![0; 3]);
    let o: Matrix<i64> = Matrix::ones(1, 2);
    assert_eq!(o.data, vec![1, 1]);
    let id: Matrix<i64> = Matrix::identity(3);
    assert_eq!(id.data, vec![1, 0, 0, 0, 1, 0, 0, 0, 1]);
    let empty: Matrix<i64> = Matrix::identity(0);
    assert_eq!(empty.data, Vec::<i64>::new());
}

#[test]
fn from_vec_checks_length() {
    assert_eq!(Matrix::from_vec(2, 2, vec![1i64, 2, 3]), Err(MathError::DimensionMismatch));
    assert_eq!(Matrix::from_vec(usize::MAX, 2, vec![1i64]), Err(MathError::DimensionMismatch));
    let a = m(2, 3, &[1, 2, 3, 4, 5, 6]);
    assert_eq!(a.get(1, 0), Some(&4));
}

#[test]
fn get_outside_is_none() {
    let a = m(2, 2, &[1, 2, 3, 4]);
    assert_eq!(a.get(0, 1), Some(&2));
    assert_eq!(a.get(2, 0), None);
    assert_eq!(a.get(0, 2), None);
}

#[test]
fn get_mut_writes_through() {
    let mut a = m(2, 2, &[1, 2, 3, 4]);
    *a.get_mut(1, 0).unwrap() = 30;
    assert_eq!(a.data, vec![1, 2, 30, 4]);
    assert!(a.get_mut(0, 5).is_none());
}

#[test]
fn set_inside_and_outside() {
    let mut a = m(2, 2, &[1, 2, 3, 4]);
    assert_eq!(a.set(0, 1, 20), Ok(()));
    assert_eq!(a.data, vec![1, 20, 3, 4]);
    assert_eq!(a.set(2, 0, 9), Err(MathError::IndexOutOfBounds));
    assert_eq!(a.set(0, 2, 9), Err(MathError::IndexOutOfBounds));
    assert_eq!(a.data, vec![1, 20, 3, 4]);
}

#[test]
fn rows_and_columns() {
    let a = m(2, 3, &[1, 2, 3, 4, 5, 6]);
    assert_eq!(a.row(1).unwrap().data, vec![4, 5, 6]);
    assert!(a.row(2).is_none());
    assert_eq!(a.column(2).unwrap().data, vec![3, 6]);
    assert!(a.column(3).is_none());
}

#[test]
fn from_rows_builds_row_major() {
    let rows = vec![Vector::from(vec![1i64, 2]), Vector::from(vec![3, 4]), Vector::from(vec![5, 6])];
    let a = Matrix::from_rows(rows).unwrap();
    assert_eq!((a.rows, a.cols), (3, 2));
    assert_eq!(a.data, vec![1, 2, 3, 4, 5, 6]);
}

#[test]
fn from_rows_rejects_empty_and_ragged() {
    let none: Vec<Vector<i64>> = Vec::new();
    assert_eq!(Matrix::from_rows(none), Err(MathError::DimensionMismatch));
    let ragged = vec![Vector::from(vec![1i64, 2]), Vector::from(vec![3])];
    assert_eq!(Matrix::from_rows(ragged), Err(MathError::DimensionMismatch));
}

#[test]
fn from_columns_scatters() {
    let cols = vec![Vector::from(vec![1i64, 4]), Vector::from(vec![2, 5]), Vector::from(vec![3, 6])];
    let a = Matrix::from_columns(cols).unwrap();
    assert_eq!((a.rows, a.cols), (2, 3));
    assert_eq!(a.data, vec![1, 2, 3, 4, 5, 6]);
}

#[test]
fn from_columns_rejects_empty_and_ragged() {
    let none: Vec<Vector<i64>> = Vec::new();
    assert_eq!(Matrix::from_columns(none), Err(MathError::DimensionMismatch));
    let ragged = vec![Vector::from(vec![1i64, 2]), Vector::from(vec![3, 4, 5])];
    assert_eq!(Matrix::from_columns(ragged), Err(MathError::DimensionMismatch));
}

#[test]
fn transpose_swaps_indices() {
    let a = m(2, 3, &[1, 2, 3, 4, 5, 6]);
    let t = a.transpose();
    assert_eq!((t.rows, t.cols), (3, 2));
    assert_eq!(t.data, vec![1, 4, 2, 5, 3, 6]);
}

#[test]
fn transpose_twice_is_identity() {
    let a = m(3, 2, &[7, -1, 0, 4, 9, 2]);
    let back = a.transpose().transpose();
    assert_eq!(back, a);
}

#[test]
fn reshape_keeps_order() {
    let a = m(2, 3, &[1, 2, 3, 4, 5, 6]);
    let r = a.reshape(3, 2).unwrap();
    assert_eq!((r.rows, r.cols), (3, 2));
    assert_eq!(r.data, a.data);
    assert_eq!(a.reshape(4, 2), Err(MathError::DimensionMismatch));
    assert_eq!(a.reshape(usize::MAX, 3), Err(MathError::DimensionMismatch));
}

#[test]
fn add_and_sub() {
    let a = m(2, 2, &[1, 2, 3, 4]);
    let b = m(2, 2, &[10, 20, 30, 40]);
    assert_eq!(a.clone().add(b.clone()).unwrap().data, vec![11, 22, 33, 44]);
    assert_eq!(b.sub(a).unwrap().data, vec![9, 18, 27, 36]);
}

#[test]
fn add_rejects_transposed_shape() {
    let a = m(2, 3, &[1, 2, 3, 4, 5, 6]);
    let b = m(3, 2, &[1, 2, 3, 4, 5, 6]);
    assert_eq!(a.clone().add(b.clone()), Err(MathError::DimensionMismatch));
    assert_eq!(a.sub(b), Err(MathError::DimensionMismatch));
}

#[test]
fn multiplication() {
    let a = m(2, 3, &[1, 2, 3, 4, 5, 6]);
    let b = m(3, 2, &[7, 8, 9, 10, 11, 12]);
    let p = a.mul(b).unwrap();
    assert_eq!((p.rows, p.cols), (2, 2));
    assert_eq!(p.data, vec![58, 64, 139, 154]);
}

#[test]
fn multiplication_rejects_incompatible() {
    let a = m(2, 3, &[1, 2, 3, 4, 5, 6]);
    let b = m(2, 3, &[1, 2, 3, 4, 5, 6]);
    assert_eq!(a.mul(b), Err(MathError::DimensionMismatch));
}

#[test]
fn multiplying_by_identity_keeps_matrix() {
    let a = m(2, 3, &[3, -1, 4, 1, -5, 9]);
    let id: Matrix<i64> = Matrix::identity(3);
    assert_eq!(a.clone().mul(id).unwrap(), a);
}

#[test]
fn scalar_multiply_each_entry() {
    let a = m(2, 2, &[1, -2, 3, 0]);
    assert_eq!(a.scalar_multiply(-3).data, vec![-3, 6, -9, 0]);
}

#[test]
fn frobenius_dot() {
    let a = m(2, 2, &[1, 2, 3, 4]);
    let b = m(2, 2, &[5, 6, 7, 8]);
    assert_eq!(a.dot(&b), Ok(70));
    assert_eq!(a.dot(&m(1, 4, &[5, 6, 7, 8])), Err(MathError::DimensionMismatch));
}

#[test]
fn hadamard() {
    let a = m(2, 2, &[1, 2, 3, 4]);
    let b = m(2, 2, &[5, 6, 7, 8]);
    assert_eq!(a.hadamard_product(&b).unwrap().data, vec![5, 12, 21, 32]);
    assert_eq!(a.hadamard_product(&m(4, 1, &[1, 2, 3, 4])), Err(MathError::DimensionMismatch));
}

#[test]
fn trace_of_square() {
    assert_eq!(m(2, 2, &[1, 2, 3, 4]).trace(), Ok(5));
    assert_eq!(m(3, 3, &[1, 0, 0, 0, -7, 0, 0, 0, 2]).trace(), Ok(-4));
    assert_eq!(m(2, 3, &[1, 2, 3, 4, 5, 6]).trace(), Err(MathError::DimensionMismatch));
}

#[test]
fn determinant_base_cases() {
    assert_eq!(m(1, 1, &[5]).determinant(), Ok(5));
    assert_eq!(m(2, 2, &[3, 8, 4, 6]).determinant(), Ok(3 * 6 - 8 * 4));
}

#[test]
fn determinant_three_by_three() {
    assert_eq!(m(3, 3, &[6, 1, 1, 4, -2, 5, 2, 8, 7]).determinant(), Ok(-306));
}

#[test]
fn determinant_four_by_four() {
    let a = m(4, 4, &[1, 0, 2, -1, 3, 0, 0, 5, 2, 1, 4, -3, 1, 0, 5, 0]);
    assert_eq!(a.determinant(), Ok(30));
}

#[test]
fn determinant_of_identity_and_empty() {
    let id: Matrix<i64> = Matrix::identity(4);
    assert_eq!(id.determinant(), Ok(1));
    let empty: Matrix<i64> = Matrix::zeroes(0, 0);
    assert_eq!(empty.determinant(), Ok(0));
}

#[test]
fn determinant_rejects_non_square() {
    assert_eq!(m(2, 3, &[1, 2, 3, 4, 5, 6]).determinant(), Err(MathError::DimensionMismatch));
}

#[test]
fn rows_round_trip() {
    let a = m(3, 2, &[1, 2, 3, 4, 5, 6]);
    let rows: Vec<Vector<i64>> = (0..a.rows).map(|i| a.row(i).unwrap()).collect();
    assert_eq!(Matrix::from_rows(rows).unwrap(), a);
}

#[test]
fn matrix_text_lines() {
    assert_eq!(m(2, 3, &[1, -2, 3, 40, 5, 6]).to_string(), "1, -2, 3\n40, 5, 6\n");
    let empty: Matrix<i64> = Matrix::zeroes(0, 3);
    assert_eq!(empty.to_string(), "");
}
