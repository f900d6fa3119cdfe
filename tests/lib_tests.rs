use linalg::add;
use linalg::math::matrix::Matrix;
use linalg::math::vector::Vector;

#[test]
fn vactor_test() {
    let mut v1 = Vector::from_elem(1i64, 10);
    println!("{}", v1.to_string());
    println!("{}", v1.len());
    v1.set(3, 4).unwrap();
    println!("{}", v1.to_string());
    assert_eq!(v1.to_string(), "[1, 1, 1, 4, 1, 1, 1, 1, 1, 1]");
}

#[test]
fn matrix_test() {
    let ones: Matrix<i64> = Matrix::ones(2, 3);
    let id: Matrix<i64> = Matrix::identity(3);
    let add = ones.mul(id).unwrap();
    let m2: Matrix<i64> = Matrix::from_vec(2, 2, vec![1, 2, 3, 4]).unwrap();
    println!("{}", m2.to_string());
    println!("{}", add.to_string());
    assert_eq!(m2.to_string(), "1, 2\n3, 4\n");
    assert_eq!(add.to_string(), "1, 1, 1\n1, 1, 1\n");
}

#[test]
fn it_works() {
    let result = add(2, 2);
    assert_eq!(result, 4);
}
