use linalg::math::vector::Vector;
use linalg::math::MathError;

fn v(xs: &[i64]) -> Vector<i64> {
    Vector::from(xs.to_vec())
}

#[test]
fn empty_constructors() {
    let a: Vector<i64> = Vector::new();
    let b: Vector<i64> = Vector::with_capacity(16);
    assert!(a.is_empty());
    assert!(b.is_empty());
    assert_eq!(b.len(), 0);
    assert!(a.equals(&b));
}

#[test]
fn from_elem_fills() {
    let a = Vector::from_elem(7i64, 3);
    assert_eq!(a.data, vec![7, 7, 7]);
    assert_eq!(Vector::from_elem(7i64, 0).len(), 0);
}

#[test]
fn get_and_set() {
    let mut a = v(&[1, 2, 3]);
    assert_eq!(a.get(1), Some(&2));
    assert_eq!(a.get(3), None);
    assert_eq!(a.set(2, 9), Ok(()));
    assert_eq!(a.data, vec![1, 2, 9]);
}

#[test]
fn set_out_of_bounds_leaves_vector() {
    let mut a = v(&[1, 2, 3]);
    assert_eq!(a.set(3, 9), Err(MathError::IndexOutOfBounds));
    assert_eq!(a.data, vec![1, 2, 3]);
}

#[test]
fn equals_compares_length_and_elements() {
    assert!(v(&[1, 2]).equals(&v(&[1, 2])));
    assert!(!v(&[1, 2]).equals(&v(&[1, 3])));
    assert!(!v(&[1, 2]).equals(&v(&[1, 2, 3])));
}

#[test]
fn iter_in_order() {
    let a = v(&[4, 5, 6]);
    let seen: Vec<i64> = a.iter().copied().collect();
    assert_eq!(seen, vec![4, 5, 6]);
}

#[test]
fn to_string_brackets_and_separators() {
    assert_eq!(v(&[]).to_string(), "[]");
    assert_eq!(v(&[5]).to_string(), "[5]");
    assert_eq!(v(&[10, -3, 0]).to_string(), "[10, -3, 0]");
    assert_eq!(v(&[i64::MIN]).to_string(), "[-9223372036854775808]");
}

#[test]
fn element_wise_apply_leaves_source() {
    let a = v(&[1, 2, 3]);
    let b = a.element_wise_apply(|x| x * 10);
    assert_eq!(b.data, vec![10, 20, 30]);
    assert_eq!(a.data, vec![1, 2, 3]);
}

#[test]
fn map_changes_element_type() {
    let a = v(&[1, -2, 3]);
    let b: Vector<bool> = a.map(|x| *x > 0);
    assert_eq!(b.data, vec![true, false, true]);
}

#[test]
fn zip_map_truncates_to_shorter() {
    let a = v(&[1, 2, 3, 4]);
    let b = v(&[10, 20]);
    let c = a.zip_map(&b, |x, y| x + y);
    assert_eq!(c.data, vec![11, 22]);
    let d = b.zip_map(&a, |x, y| x * y);
    assert_eq!(d.data, vec![10, 40]);
}

#[test]
fn sum_of_elements() {
    assert_eq!(v(&[]).sum(), 0);
    assert_eq!(v(&[1, 2, 3, -10]).sum(), -4);
}

#[test]
fn min_and_max() {
    let a = v(&[10, 30, 31]);
    assert_eq!(a.min(), Some(10));
    assert_eq!(a.max(), Some(31));
    let b = v(&[3, -7, 3, 12, -7]);
    assert_eq!(b.min(), Some(-7));
    assert_eq!(b.max(), Some(12));
    assert_eq!(v(&[]).min(), None);
    assert_eq!(v(&[]).max(), None);
}

#[test]
fn to_array_requires_exact_length() {
    let a = v(&[1, 2, 3]);
    assert_eq!(a.to_array::<3>(), Some([1, 2, 3]));
    assert_eq!(a.to_array::<2>(), None);
    assert_eq!(a.to_array::<4>(), None);
    assert_eq!(v(&[]).to_array::<0>(), Some([]));
}

#[test]
fn dot_product() {
    assert_eq!(v(&[1, 2, 3]).dot(&v(&[4, 5, 6])), Ok(32));
    assert_eq!(v(&[]).dot(&v(&[])), Ok(0));
    assert_eq!(v(&[1, 2]).dot(&v(&[1])), Err(MathError::DimensionMismatch));
}

#[test]
fn elementwise_operators() {
    assert_eq!(v(&[12, 13, 15]).add(v(&[18, 17, 15])).unwrap().data, vec![30, 30, 30]);
    assert_eq!(v(&[1, 2]).sub(v(&[1, 1])).unwrap().data, vec![0, 1]);
    assert_eq!(v(&[2, -3, 4]).mul(v(&[5, 6, -7])).unwrap().data, vec![10, -18, -28]);
    assert_eq!(v(&[7, -7, 7, -7]).div(v(&[2, 2, -2, -2])).unwrap().data, vec![3, -3, -3, 3]);
}

#[test]
fn elementwise_operators_reject_mismatch() {
    assert_eq!(v(&[1, 2]).add(v(&[1])), Err(MathError::DimensionMismatch));
    assert_eq!(v(&[1, 2]).sub(v(&[1, 2, 3])), Err(MathError::DimensionMismatch));
    assert_eq!(v(&[1]).mul(v(&[])), Err(MathError::DimensionMismatch));
    assert_eq!(v(&[1, 2]).div(v(&[1])), Err(MathError::DimensionMismatch));
}

#[test]
fn assigning_operators() {
    let mut a = v(&[1, 2, 3]);
    assert_eq!(a.add_assign(v(&[10, 20, 30])), Ok(()));
    assert_eq!(a.data, vec![11, 22, 33]);
    assert_eq!(a.sub_assign(v(&[1, 2, 3])), Ok(()));
    assert_eq!(a.data, vec![10, 20, 30]);
    assert_eq!(a.mul_assign(v(&[2, 3, -1])), Ok(()));
    assert_eq!(a.data, vec![20, 60, -30]);
    assert_eq!(a.div_assign(v(&[3, 7, 4])), Ok(()));
    assert_eq!(a.data, vec![6, 8, -7]);
}

#[test]
fn assigning_operators_reject_mismatch_unchanged() {
    let mut a = v(&[1, 2, 3]);
    assert_eq!(a.add_assign(v(&[1])), Err(MathError::DimensionMismatch));
    assert_eq!(a.sub_assign(v(&[1])), Err(MathError::DimensionMismatch));
    assert_eq!(a.mul_assign(v(&[])), Err(MathError::DimensionMismatch));
    assert_eq!(a.div_assign(v(&[1, 1, 1, 1])), Err(MathError::DimensionMismatch));
    assert_eq!(a.data, vec![1, 2, 3]);
}

#[test]
fn addition_matches_elementwise_sum() {
    let a = v(&[5, -8, 13, 0]);
    let b = v(&[-5, 3, 100, 7]);
    let c = a.clone().add(b.clone()).unwrap();
    for i in 0..4 {
        assert_eq!(c.data[i], a.data[i] + b.data[i]);
    }
}

#[test]
fn iter_mut_writes_through() {
    let mut a = v(&[1, 2, 3]);
    for x in a.iter_mut() {
        *x *= 2;
    }
    assert_eq!(a.data, vec![2, 4, 6]);
}

#[test]
fn from_vec_keeps_order() {
    let a: Vector<i64> = Vector::from(vec![10, 30, 31]);
    assert_eq!(a.data, vec![10, 30, 31]);
    assert_eq!(a.len(), 3);
}
