use lasso::linalg::{Error, Matrix};

fn numbered(width: usize, height: usize, start: u64) -> Matrix<u64> {
    let mut m: Matrix<u64> = Matrix::new(width, height);
    let mut v = start;
    for j in 0..height {
        for i in 0..width {
            m.set(i, j, v).unwrap();
            v += 1;
        }
    }
    m
}

#[test]
fn set_then_get_everywhere() {
    let mut m: Matrix<i64> = Matrix::new(3, 2);
    for j in 0..2 {
        for i in 0..3 {
            let value = (i as i64) * 10 - (j as i64);
            m.set(i, j, value).unwrap();
            assert_eq!(m.get(i, j).unwrap(), value);
        }
    }
    assert_eq!(m.get(0, 0).unwrap(), 0);
    assert_eq!(m.get(2, 1).unwrap(), 19);
    assert!(matches!(m.get(3, 0), Err(Error::IndexOutOfRange)));
    assert!(matches!(m.set(0, 2, 1), Err(Error::IndexOutOfRange)));
    assert_eq!(m.get(1, 1).unwrap(), 9);
}

#[test]
fn addition_commutes() {
    let a = numbered(3, 2, 1);
    let b = numbered(3, 2, 100);
    let ab = a.add(&b).unwrap();
    let ba = b.add(&a).unwrap();
    for j in 0..2 {
        for i in 0..3 {
            assert_eq!(ab.get(i, j).unwrap(), ba.get(i, j).unwrap());
            assert_eq!(ab.get(i, j).unwrap(), a.get(i, j).unwrap() + b.get(i, j).unwrap());
        }
    }
    assert_eq!(ab.get(2, 1).unwrap(), 6 + 105);
}

#[test]
fn addition_of_same_count_but_other_width_fails() {
    let a = numbered(3, 2, 1);
    let b = numbered(2, 3, 1);
    assert!(matches!(a.add(&b), Err(Error::SizeMismatch)));
}

#[test]
fn addition_wraps_on_overflow() {
    let a: Matrix<usize> = Matrix::new_fill(1, 1, usize::MAX);
    let b: Matrix<usize> = Matrix::new_fill(1, 1, 2);
    assert_eq!(a.add(&b).unwrap().get(0, 0).unwrap(), 1);
}

#[test]
fn scalar_one_and_zero() {
    let m = numbered(2, 3, 4);
    let same = m.mul_scalar(1);
    let zero = m.mul_scalar(0);
    assert_eq!(same.width(), 2);
    assert_eq!(zero.height(), 3);
    for j in 0..3 {
        for i in 0..2 {
            assert_eq!(same.get(i, j).unwrap(), m.get(i, j).unwrap());
            assert_eq!(zero.get(i, j).unwrap(), 0);
        }
    }
}

#[test]
fn dot_of_matrices_sums_products() {
    let a = numbered(2, 2, 1);
    let b = numbered(2, 2, 5);
    assert_eq!(a.dot(&b).unwrap(), 1 * 5 + 2 * 6 + 3 * 7 + 4 * 8);
    let c = numbered(1, 4, 1);
    assert!(matches!(a.dot(&c), Err(Error::SizeMismatch)));
}

#[test]
fn row_is_a_column_vector() {
    let m = numbered(4, 3, 0);
    let v = m.row(2).unwrap();
    assert_eq!(v.width(), 1);
    assert_eq!(v.height(), 4);
    for k in 0..4 {
        assert_eq!(v.get(0, k).unwrap(), m.get(k, 2).unwrap());
    }
    assert_eq!(v.get(0, 3).unwrap(), 11);
}

#[test]
fn product_shape_and_values() {
    let right = numbered(2, 3, 1);
    let left = numbered(3, 2, 1);
    let p = right.mul(&left).unwrap();
    assert_eq!(p.width(), 3);
    assert_eq!(p.height(), 3);
    assert_eq!(p.get(0, 0).unwrap(), 1 * 1 + 4 * 2);
    assert_eq!(p.get(2, 2).unwrap(), 3 * 5 + 6 * 6);
    let square = numbered(2, 2, 1);
    assert!(matches!(square.mul(&numbered(2, 3, 1)), Err(Error::SizeMismatch)));
    assert_eq!(square.mul(&square.row(0).unwrap()).unwrap().width(), 1);
}

#[test]
fn dimensions_of_new_matrices() {
    let m: Matrix<i64> = Matrix::new(5, 1);
    assert_eq!(m.width(), 5);
    assert_eq!(m.height(), 1);
    let empty: Matrix<i64> = Matrix::new(2, 0);
    assert_eq!(empty.height(), 0);
    assert!(matches!(empty.get(0, 0), Err(Error::IndexOutOfRange)));
    assert!(matches!(empty.row(0), Err(Error::IndexOutOfRange)));
}
