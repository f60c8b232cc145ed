use deft_engine::linalg::{Matrix, MatrixError};

fn counting(rows: u32, cols: u32) -> Matrix {
    let mut data = Vec::new();
    for k in 0..rows * cols {
        data.push(k + 1);
    }
    Matrix::from_data(rows, cols, data)
}

#[test]
fn set_then_get_returns_value() {
    let mut m = Matrix::zeros(3, 4);
    for r in 0..3u32 {
        for c in 0..4u32 {
            assert_eq!(m.set(r, c, 10 * r + c), Ok(()));
        }
    }
    for r in 0..3u32 {
        for c in 0..4u32 {
            assert_eq!(m.get(r, c), Ok(10 * r + c));
        }
    }
}

#[test]
fn out_of_range_access_fails() {
    let mut m = Matrix::ones(2, 3);
    assert_eq!(m.get(2, 0), Err(MatrixError::IndexOutOfRange));
    assert_eq!(m.get(0, 3), Err(MatrixError::IndexOutOfRange));
    assert_eq!(m.set(1, 3, 7), Err(MatrixError::IndexOutOfRange));
    assert_eq!(m.set(5, 0, 7), Err(MatrixError::IndexOutOfRange));
    assert_eq!(m.flatten(), vec![1, 1, 1, 1, 1, 1]);
}

#[test]
fn get_block_copies_region() {
    let m = counting(3, 4);
    let b = m.get_block(1, 1, 3, 3).unwrap();
    assert_eq!((b.rows, b.cols), (2, 2));
    assert_eq!(b.flatten(), vec![6, 7, 10, 11]);
    assert_eq!(m.get_block(0, 0, 4, 1).err(), Some(MatrixError::IndexOutOfRange));
    assert_eq!(m.get_block(2, 0, 1, 1).err(), Some(MatrixError::IndexOutOfRange));
    let empty = m.get_block(1, 2, 1, 2).unwrap();
    assert_eq!((empty.rows, empty.cols), (0, 0));
}

#[test]
fn block_operations_respect_modes() {
    let mut m = Matrix::from_data(2, 3, vec![1, 2, 3, 4, 5, u32::MAX]);
    let block = Matrix::from_data(1, 2, vec![0, 9]);
    m.set_block(0, 1, &block);
    assert_eq!(m.flatten(), vec![1, 0, 9, 4, 5, u32::MAX]);
    m.overlay_block(1, 1, &block);
    assert_eq!(m.flatten(), vec![1, 0, 9, 4, 5, 9]);
    let ones = Matrix::ones(1, 2);
    let mut w = Matrix::from_data(1, 2, vec![u32::MAX, 7]);
    w.add_block(0, 0, &ones);
    assert_eq!(w.flatten(), vec![0, 8]);
}

#[test]
fn rows_columns_and_transpose() {
    let m = counting(2, 3);
    assert_eq!(m.get_row(1).flatten(), vec![4, 5, 6]);
    let col = m.get_col(2);
    assert_eq!((col.rows, col.cols), (2, 1));
    assert_eq!(col.flatten(), vec![3, 6]);
    let t = m.transpose();
    assert_eq!((t.rows, t.cols), (3, 2));
    assert_eq!(t.flatten(), vec![1, 4, 2, 5, 3, 6]);
}

#[test]
fn elementwise_arithmetic_wraps() {
    let a = Matrix::from_data(1, 3, vec![1, u32::MAX, 0x10000]);
    let b = Matrix::from_data(1, 3, vec![2, 2, 0x10000]);
    assert_eq!(Matrix::add(&a, &b).flatten(), vec![3, 1, 0x20000]);
    assert_eq!(Matrix::sub(&a, &b).flatten(), vec![u32::MAX, u32::MAX - 2, 0]);
    assert_eq!(Matrix::mul(&a, &b).flatten(), vec![2, u32::MAX - 1, 0]);
}

#[test]
fn dot_products() {
    let a = Matrix::from_data(1, 3, vec![1, 2, 3]);
    let b = Matrix::from_data(1, 3, vec![4, 5, 6]);
    assert_eq!(Matrix::vector_dot(a, b), 32);
    let big = Matrix::from_data(1, 2, vec![0x10000, 1]);
    let big2 = Matrix::from_data(1, 2, vec![0x10000, 5]);
    assert_eq!(Matrix::vector_dot(big, big2), 5);
    let m = counting(2, 3);
    let n = counting(3, 2);
    let p = m.dot(&n);
    assert_eq!((p.rows, p.cols), (2, 2));
    assert_eq!(p.flatten(), vec![22, 28, 49, 64]);
}
