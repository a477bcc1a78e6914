use ffsvm::Matrix;
use ffsvm::SimdOptimized;
use ffsvm::SparseMatrix;
use ffsvm::SparseVector;
use ffsvm::Triangular;
use ffsvm::find_max_index;
use ffsvm::find_max_index_u64;
use ffsvm::pair_offset;
use ffsvm::set_all;

#[test]
fn matrix_test_iter() {
    let matrix = Matrix::new(10, 5, 0);
    let mut iter = matrix.iter();
    let mut rows = 0;
    while let Some(x) = iter.next() {
        assert_eq!(x[0], 0);
        rows += 1;
    }
    assert_eq!(rows, 10);
}

#[test]
fn test_offset() {
    let matrix = Triangular::with_dimension(4, 0);

    assert_eq!(matrix.offset(0, 1), 0);
    assert_eq!(matrix.offset(0, 3), 2);
    assert_eq!(matrix.offset(2, 3), 5);

    let matrix = Triangular::with_dimension(5, 0);

    assert_eq!(matrix.offset(0, 1), 0);
    assert_eq!(matrix.offset(1, 4), 6);
    assert_eq!(matrix.offset(2, 3), 7);
    assert_eq!(matrix.offset(3, 4), 9);
}

#[test]
fn vectors_test_index() {
    let mut matrix = Triangular::with_dimension(5, 0);

    matrix.set(2, 3, 667);

    assert_eq!(matrix.data[7], 667);
}

#[test]
fn triangular_test_index() {
    let matrix = Triangular::with_dimension(4, 0);

    assert_eq!(matrix.offset(0, 1), 0);
    assert_eq!(matrix.offset(0, 3), 2);
    assert_eq!(matrix.offset(2, 3), 5);
}

#[test]
fn simdoptimized_test_iter() {
    let matrix = SimdOptimized::with_dimension(10, 5, 0);
    let mut iter = matrix.iter();
    let mut rows = 0;
    while let Some(x) = iter.next() {
        assert_eq!(x[0], 0);
        rows += 1;
    }
    assert_eq!(rows, 10);
}

#[test]
fn simdoptimized_pads_rows() {
    let mut matrix = SimdOptimized::with_dimension(3, 5, 0.0f32);
    // Rows are padded up to the lane width; the padding keeps the default.
    assert_eq!(matrix.vector_length, 8);
    assert_eq!(matrix.data.len(), 24);
    matrix.set_vector(1, &vec![1.0, 2.0, 3.0, 4.0, 5.0]);
    assert_eq!(matrix.get(1, 0), 1.0);
    assert_eq!(matrix.get(1, 4), 5.0);
    assert_eq!(matrix.get(1, 5), 0.0);
    assert_eq!(matrix.get(0, 0), 0.0);
    assert_eq!(matrix.get(2, 4), 0.0);
}

#[test]
fn matrix_set_get() {
    let mut m = Matrix::new(2, 3, 0u32);
    m.set(1, 2, 9);
    m.set(0, 0, 4);
    assert_eq!(m.get(1, 2), 9);
    assert_eq!(m.get(0, 0), 4);
    assert_eq!(m.offset(1, 2), 5);
    m.set_vector(0, &vec![7, 8, 9]);
    assert_eq!(m.get_vector(0), vec![7, 8, 9]);
    let m2 = Matrix::from_flat_vec(vec![1, 2, 3, 4], 2, 2);
    assert_eq!(m2.get(1, 0), 3);
}

#[test]
fn sparse_vector_entries() {
    let mut v: SparseVector<f32> = SparseVector::new();
    v.push_entry(1, 0.5);
    v.push_entry(4, 1.5);
    assert_eq!(v.len(), 2);
    assert_eq!(v.get(1), Some(0.5));
    assert_eq!(v.get(4), Some(1.5));
    assert_eq!(v.get(2), None);
    let mut it = v.iter();
    assert_eq!(it.next(), Some((1, 0.5)));
    assert_eq!(it.next(), Some((4, 1.5)));
    assert_eq!(it.next(), None);
    v.clear();
    assert_eq!(v.len(), 0);
}

#[test]
fn sparse_matrix_rows() {
    let mut m: SparseMatrix<f32> = SparseMatrix::with(2);
    m.push_entry(0, 2, 1.0);
    m.push_entry(1, 0, 2.0);
    m.push_entry(1, 3, 3.0);
    assert_eq!(m.rows(), 2);
    assert_eq!(m.row(0).len(), 1);
    assert_eq!(m.row(1).len(), 2);
    let mut it = m.row_iter();
    assert_eq!(it.next().unwrap().get(2), Some(1.0));
    assert_eq!(it.next().unwrap().get(3), Some(3.0));
    assert!(it.next().is_none());
}

#[test]
fn find_max_prefers_lowest_index() {
    assert_eq!(find_max_index(&vec![3, 1, 3, 2]), 0);
    assert_eq!(find_max_index(&vec![1, 5, 5]), 1);
    assert_eq!(find_max_index(&vec![0]), 0);
    assert_eq!(find_max_index_u64(&vec![7, 9, 9, 2]), 1);
}

#[test]
fn set_all_overwrites() {
    let mut v = vec![1u32, 2, 3];
    set_all(&mut v, 7);
    assert_eq!(v, vec![7, 7, 7]);
}

#[test]
fn pair_offsets_walk_the_triangle() {
    // Pairs of 4 classes, in order: (0,1) (0,2) (0,3) (1,2) (1,3) (2,3).
    assert_eq!(pair_offset(4, 0, 1), 0);
    assert_eq!(pair_offset(4, 0, 2), 1);
    assert_eq!(pair_offset(4, 0, 3), 2);
    assert_eq!(pair_offset(4, 1, 2), 3);
    assert_eq!(pair_offset(4, 1, 3), 4);
    assert_eq!(pair_offset(4, 2, 3), 5);
}
