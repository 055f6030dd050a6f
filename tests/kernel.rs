use linalg::errors::LinAlgError;
use linalg::matrix::Matrix;
use linalg::residue::{Residue, MODULUS};
use linalg::traits::{Conj, Field, One};
use linalg::vector::Vector;

fn r(x: i64) -> Residue {
    Residue::from_int(x)
}

fn rs(xs: &[i64]) -> Vec<Residue> {
    xs.iter().map(|&x| r(x)).collect()
}

fn mat(xs: &[i64], n: usize, m: usize) -> Matrix<Residue> {
    Matrix::new(rs(xs), n, m).unwrap()
}

fn vector(xs: &[i64]) -> Vector<Residue> {
    Vector::new(rs(xs)).unwrap()
}

#[test]
fn determinant_of_singular_two_by_two() {
    let a = mat(&[1, -1, -1, 1], 2, 2);
    assert_eq!(a.determinant().unwrap(), r(0));
}

#[test]
fn determinant_of_scaled_identity() {
    let a = mat(&[2, 0, 0, 0, 2, 0, 0, 0, 2], 3, 3);
    assert_eq!(a.determinant().unwrap(), r(8));
}

#[test]
fn determinant_of_diag() {
    let a = Matrix::diag(rs(&[2, 2, 2])).unwrap();
    assert_eq!(a.determinant().unwrap(), r(8));
}

#[test]
fn determinant_of_mixed_three_by_three() {
    let a = mat(&[8, 5, -2, 4, 7, 20, 7, 6, 1], 3, 3);
    assert_eq!(a.determinant().unwrap(), r(-174));
}

#[test]
fn determinant_with_row_swap() {
    // columns [0,1] and [1,0]: one swap, determinant -1
    let a = mat(&[0, 1, 1, 0], 2, 2);
    assert_eq!(a.determinant().unwrap(), r(-1));
}

#[test]
fn determinant_of_identity_is_one() {
    for n in 1..6 {
        let id = Matrix::<Residue>::identity(n).unwrap();
        assert_eq!(id.determinant().unwrap(), Residue::one());
    }
}

#[test]
fn determinant_needs_square() {
    let a = mat(&[1, 2, 3, 4, 5, 6], 2, 3);
    assert!(matches!(a.determinant(), Err(LinAlgError::OperationNonConforming { .. })));
}

#[test]
fn cross_product_of_unit_vectors() {
    let u = vector(&[0, 0, 1]);
    let v = vector(&[1, 0, 0]);
    assert_eq!(u.cross_product(&v).unwrap(), vector(&[0, 1, 0]));
}

#[test]
fn cross_product_needs_size_three() {
    let u = vector(&[1, 2]);
    let v = vector(&[1, 0, 0]);
    assert_eq!(
        u.cross_product(&v).unwrap_err(),
        LinAlgError::BuildNonconforming { expected: 3, recieved: 2 }
    );
    assert_eq!(
        v.cross_product(&u).unwrap_err(),
        LinAlgError::BuildNonconforming { expected: 3, recieved: 2 }
    );
}

#[test]
fn cross_product_is_orthogonal() {
    let u = vector(&[3, -7, 2]);
    let v = vector(&[5, 1, -4]);
    let c = u.cross_product(&v).unwrap();
    assert_eq!(c.dot(&u).unwrap(), Residue::zero());
    assert_eq!(c.dot(&v).unwrap(), Residue::zero());
}

#[test]
fn inverse_of_identity() {
    let a = mat(&[1, 0, 0, 0, 1, 0, 0, 0, 1], 3, 3);
    assert_eq!(a.inverse().unwrap(), Matrix::identity(3).unwrap());
}

#[test]
fn inverse_of_rank_one_matrix_fails() {
    let a = mat(&[1, 1, 1, 1, 1, 1, 1, 1, 1], 3, 3);
    assert_eq!(a.inverse().unwrap_err(), LinAlgError::SinglarMatrix);
    assert_eq!(a.rank().unwrap(), 1);
}

#[test]
fn inverse_times_matrix_is_identity() {
    let a = mat(&[8, 5, -2, 4, 7, 20, 7, 6, 1], 3, 3);
    let inv = a.inverse().unwrap();
    let id = Matrix::<Residue>::identity(3).unwrap();
    assert_eq!(a.mlt(&inv).unwrap(), id);
    assert_eq!(inv.mlt(&a).unwrap(), id);
}

#[test]
fn inverse_of_two_by_two_with_swap() {
    let a = mat(&[0, 2, 1, 0], 2, 2);
    let inv = a.inverse().unwrap();
    assert_eq!(a.mlt(&inv).unwrap(), Matrix::identity(2).unwrap());
}

#[test]
fn inverse_errors() {
    let a = mat(&[1, 2, 3, 4, 5, 6], 2, 3);
    assert!(matches!(a.inverse(), Err(LinAlgError::OperationNonConforming { .. })));
    let empty = Matrix::<Residue>::new(vec![], 0, 0).unwrap();
    assert_eq!(empty.inverse().unwrap_err(), LinAlgError::EmptyArgs);
}

#[test]
fn rank_of_zero_and_identity() {
    let z = Matrix::<Residue>::zero(4, 4).unwrap();
    assert_eq!(z.rank().unwrap(), 0);
    let id = Matrix::<Residue>::identity(4).unwrap();
    assert_eq!(id.rank().unwrap(), 4);
}

#[test]
fn rank_of_wide_matrix() {
    // rows [1,2,3] and [2,4,6]
    let a = mat(&[1, 2, 2, 4, 3, 6], 2, 3);
    assert_eq!(a.rank().unwrap(), 1);
}

#[test]
fn row_echelon_is_reduced() {
    // rows [1,2] and [3,4]
    let a = mat(&[1, 3, 2, 4], 2, 2);
    assert_eq!(a.row_echelon().unwrap(), Matrix::identity(2).unwrap());
    // rows [1,2,3] and [2,4,7]: reduced form [1,2,0] and [0,0,1]
    let b = mat(&[1, 2, 2, 4, 3, 7], 2, 3);
    assert_eq!(b.row_echelon().unwrap(), mat(&[1, 0, 2, 0, 0, 1], 2, 3));
}

#[test]
fn transpose_twice_is_identity() {
    let a = mat(&[1, 2, 3, 4, 5, 6], 2, 3);
    let t = a.tr().unwrap();
    assert_eq!(t.size(), (3, 2));
    assert_eq!(t, mat(&[1, 3, 5, 2, 4, 6], 3, 2));
    assert_eq!(t.tr().unwrap(), a);
}

#[test]
fn adjoint_of_real_matrix_is_transpose() {
    let a = mat(&[1, -2, 3, 4, 5, -6], 3, 2);
    assert_eq!(a.adj().unwrap(), a.tr().unwrap());
}

#[test]
fn dot_product_is_hermitian() {
    let u = vector(&[1, 2, 3]);
    let v = vector(&[4, -5, 6]);
    let uv = u.dot(&v).unwrap();
    assert_eq!(uv, r(12));
    assert_eq!(uv, v.dot(&u).unwrap().conj());
}

#[test]
fn dot_product_size_mismatch() {
    let u = vector(&[1, 2, 3]);
    let v = vector(&[4, 5]);
    assert!(matches!(u.dot(&v), Err(LinAlgError::OperationNonConforming { .. })));
}

#[test]
fn lerp_end_points() {
    let u = vector(&[2, 1]);
    let v = vector(&[4, 2]);
    assert_eq!(Vector::lerp(&u, &v, r(0)).unwrap(), u);
    assert_eq!(Vector::lerp(&u, &v, r(1)).unwrap(), v);
    let a = mat(&[2, 1, 3, 4], 2, 2);
    let b = mat(&[20, 10, 30, 40], 2, 2);
    assert_eq!(Matrix::lerp(&a, &b, r(0)).unwrap(), a);
    assert_eq!(Matrix::lerp(&a, &b, r(1)).unwrap(), b);
}

#[test]
fn lerp_halfway() {
    // (1 - t) * 0 + t * 1 with t the residue of one half
    let half = r(1).divide(&r(2));
    let w = Vector::lerp(&vector(&[0]), &vector(&[2]), half).unwrap();
    assert_eq!(w, vector(&[1]));
}

#[test]
fn lerp_shape_mismatch() {
    let u = vector(&[2, 1]);
    let v = vector(&[4, 2, 0]);
    assert!(matches!(Vector::lerp(&u, &v, r(0)), Err(LinAlgError::OperationNonConforming { .. })));
}

#[test]
fn new_checks_the_entry_count() {
    let err = Matrix::<Residue>::new(rs(&[1, 2, 3, 4, 5]), 2, 3).unwrap_err();
    assert_eq!(err, LinAlgError::BuildNonconforming { expected: 6, recieved: 5 });
    let a = mat(&[1, 2, 3, 4, 5, 6], 2, 3);
    assert_eq!(a.elements().len(), 6);
    assert_eq!(a.size(), (2, 3));
}

#[test]
fn element_access_is_column_major() {
    let a = mat(&[1, 2, 3, 4, 5, 6], 2, 3);
    assert_eq!(a.el(1, 1).unwrap(), r(1));
    assert_eq!(a.el(2, 1).unwrap(), r(2));
    assert_eq!(a.el(1, 2).unwrap(), r(3));
    assert_eq!(a.el(2, 3).unwrap(), r(6));
    assert_eq!(
        a.el(3, 1).unwrap_err(),
        LinAlgError::OutofBoundsMatrix { size: (2, 3), recieved: (3, 1) }
    );
}

#[test]
fn set_replaces_one_entry() {
    let mut a = mat(&[1, 2, 3, 4], 2, 2);
    a.set(2, 1, r(9)).unwrap();
    assert_eq!(a, mat(&[1, 9, 3, 4], 2, 2));
    assert_eq!(
        a.set(1, 3, r(0)).unwrap_err(),
        LinAlgError::OutofBoundsMatrix { size: (2, 2), recieved: (1, 3) }
    );
    assert_eq!(a, mat(&[1, 9, 3, 4], 2, 2));
}

#[test]
fn zero_and_ones() {
    assert_eq!(Matrix::<Residue>::zero(2, 3).unwrap(), mat(&[0, 0, 0, 0, 0, 0], 2, 3));
    assert_eq!(Matrix::<Residue>::ones(2, 2).unwrap(), mat(&[1, 1, 1, 1], 2, 2));
    assert_eq!(Vector::<Residue>::zero(2).unwrap(), vector(&[0, 0]));
    assert_eq!(Vector::<Residue>::ones(3).unwrap(), vector(&[1, 1, 1]));
    assert_eq!(
        Vector::<Residue>::zero(0).unwrap_err(),
        LinAlgError::BuildNonconforming { expected: 1, recieved: 0 }
    );
}

#[test]
fn matrix_add_sub_scale() {
    let u = mat(&[1, 2, 3, 4], 2, 2);
    let v = mat(&[7, 4, -2, 2], 2, 2);
    assert_eq!(u.add(&v).unwrap(), mat(&[8, 6, 1, 6], 2, 2));
    assert_eq!(u.sub(&v).unwrap(), mat(&[-6, -2, 5, 2], 2, 2));
    assert_eq!(u.scl(r(2)).unwrap(), mat(&[2, 4, 6, 8], 2, 2));
    let w = mat(&[1, 2, 3], 3, 1);
    assert!(matches!(u.add(&w), Err(LinAlgError::OperationNonConforming { .. })));
    assert!(matches!(u.sub(&w), Err(LinAlgError::OperationNonConforming { .. })));
}

#[test]
fn vector_add_sub_scale() {
    let u = vector(&[2, 3]);
    let v = vector(&[5, 7]);
    assert_eq!(u.add(&v).unwrap(), vector(&[7, 10]));
    assert_eq!(u.sub(&v).unwrap(), vector(&[-3, -4]));
    assert_eq!(u.scl(r(2)).unwrap(), vector(&[4, 6]));
    let w = vector(&[1]);
    assert!(matches!(u.add(&w), Err(LinAlgError::OperationNonConforming { .. })));
    assert!(matches!(u.sub(&w), Err(LinAlgError::OperationNonConforming { .. })));
}

#[test]
fn vector_linear_combination() {
    let e1 = vector(&[1, 0, 0]);
    let e2 = vector(&[0, 1, 0]);
    let e3 = vector(&[0, 0, 1]);
    let c = Vector::linear_combination(&[&e1, &e2, &e3], &rs(&[10, -2, 7])).unwrap();
    assert_eq!(c, vector(&[10, -2, 7]));
    let v1 = vector(&[1, 2, 3]);
    let v2 = vector(&[0, 10, -100]);
    let c = Vector::linear_combination(&[&v1, &v2], &rs(&[10, -2])).unwrap();
    assert_eq!(c, vector(&[10, 0, 230]));
}

#[test]
fn vector_linear_combination_errors() {
    let v1 = vector(&[1, 2, 3]);
    let v2 = vector(&[0, 10]);
    assert_eq!(Vector::linear_combination(&[], &rs(&[1])).unwrap_err(), LinAlgError::EmptyArgs);
    assert!(matches!(
        Vector::linear_combination(&[&v1], &rs(&[1, 2])),
        Err(LinAlgError::OperationNonConforming { .. })
    ));
    assert!(matches!(
        Vector::linear_combination(&[&v1, &v2], &rs(&[1, 2])),
        Err(LinAlgError::OperationNonConforming { .. })
    ));
}

#[test]
fn matrix_linear_combination() {
    let a = mat(&[1, 2, 3, 4], 2, 2);
    let b = mat(&[1, 0, 0, 1], 2, 2);
    let c = Matrix::linear_combination(&[&a, &b], &rs(&[2, 3])).unwrap();
    assert_eq!(c, mat(&[5, 4, 6, 11], 2, 2));
    assert_eq!(Matrix::linear_combination(&[&a], &[]).unwrap_err(), LinAlgError::EmptyArgs);
    assert!(matches!(
        Matrix::linear_combination(&[&a, &b], &rs(&[1])),
        Err(LinAlgError::OperationNonConforming { .. })
    ));
    let w = mat(&[1, 2], 1, 2);
    assert!(matches!(
        Matrix::linear_combination(&[&a, &w], &rs(&[1, 1])),
        Err(LinAlgError::OperationNonConforming { .. })
    ));
}

#[test]
fn matrix_product() {
    // rows [1,2],[3,4] times rows [5,6],[7,8] gives rows [19,22],[43,50]
    let a = mat(&[1, 3, 2, 4], 2, 2);
    let b = mat(&[5, 7, 6, 8], 2, 2);
    assert_eq!(a.mlt(&b).unwrap(), mat(&[19, 43, 22, 50], 2, 2));
    assert_eq!(a.mul_mat(&b).unwrap(), mat(&[19, 43, 22, 50], 2, 2));
    let c = mat(&[1, 2, 3], 3, 1);
    assert!(matches!(a.mlt(&c), Err(LinAlgError::OperationNonConforming { .. })));
}

#[test]
fn matrix_times_vector() {
    let a = mat(&[2, 0, 0, 2], 2, 2);
    let v = vector(&[4, 2]);
    assert_eq!(a.mul_vec(&v).unwrap(), vector(&[8, 4]));
    let w = vector(&[1, 2, 3]);
    assert!(matches!(a.mul_vec(&w), Err(LinAlgError::OperationNonConforming { .. })));
}

#[test]
fn trace_sums_the_diagonal() {
    let a = mat(&[2, -5, 0, 4, 3, 7, -2, 3, 4], 3, 3);
    assert_eq!(a.trace().unwrap(), r(9));
    let b = mat(&[1, 2, 3, 4, 5, 6], 2, 3);
    assert!(matches!(b.trace(), Err(LinAlgError::OperationNonConforming { .. })));
}

#[test]
fn diag_and_identity() {
    assert_eq!(Matrix::diag(rs(&[1, 2])).unwrap(), mat(&[1, 0, 0, 2], 2, 2));
    assert_eq!(Matrix::<Residue>::diag(vec![]).unwrap_err(), LinAlgError::EmptyArgs);
    assert_eq!(Matrix::<Residue>::identity(0).unwrap_err(), LinAlgError::EmptyArgs);
    assert_eq!(Matrix::<Residue>::identity(2).unwrap(), mat(&[1, 0, 0, 1], 2, 2));
}

#[test]
fn append_horizontal_joins_columns() {
    let a = mat(&[1, 2], 2, 1);
    let b = mat(&[3, 4, 5, 6], 2, 2);
    assert_eq!(a.append_horizontal(&b).unwrap(), mat(&[1, 2, 3, 4, 5, 6], 2, 3));
    let c = mat(&[1, 2, 3], 3, 1);
    assert!(matches!(a.append_horizontal(&c), Err(LinAlgError::OperationNonConforming { .. })));
}

#[test]
fn column_extract_returns_a_column() {
    let a = mat(&[1, 2, 3, 4, 5, 6], 2, 3);
    assert_eq!(a.column_extract(2).unwrap(), vector(&[3, 4]));
    assert_eq!(
        a.column_extract(4).unwrap_err(),
        LinAlgError::OutofBoundsVector { size: 3, recieved: 4 }
    );
}

#[test]
fn vector_access() {
    let mut v = vector(&[5, 6, 7]);
    assert_eq!(v.size(), 3);
    assert_eq!(v.el(2).unwrap(), r(6));
    assert_eq!(v.el(4).unwrap_err(), LinAlgError::OutofBoundsVector { size: 3, recieved: 4 });
    v.set(3, r(1)).unwrap();
    assert_eq!(v, vector(&[5, 6, 1]));
    assert_eq!(v.set(5, r(1)).unwrap_err(), LinAlgError::OutofBoundsVector { size: 3, recieved: 5 });
    assert_eq!(v.matrix().size(), (3, 1));
    assert_eq!(
        Vector::<Residue>::new(vec![]).unwrap_err(),
        LinAlgError::BuildNonconforming { expected: 1, recieved: 0 }
    );
}

#[test]
fn residue_arithmetic() {
    assert_eq!(r(-1).value(), MODULUS - 1);
    assert_eq!(Residue::from_u64(MODULUS + 3), r(3));
    assert_eq!(r(5).plus(&r(-7)), r(-2));
    assert_eq!(r(5).minus(&r(7)), r(-2));
    assert_eq!(r(-3).times(&r(4)), r(-12));
    assert_eq!(r(3).negate(), r(-3));
    assert_eq!(r(0).negate(), r(0));
    assert_eq!(r(3).conj(), r(3));
    assert!(r(3).equals(&r(3)));
    assert!(!r(3).equals(&r(4)));
    let third = r(1).divide(&r(3));
    assert_eq!(third.times(&r(3)), r(1));
    assert_eq!(r(6).divide(&r(-4)).times(&r(-4)), r(6));
}

#[test]
fn determinant_of_four_by_four_with_half_entry() {
    let half = r(5).divide(&r(2));
    let mut a = mat(&[8, 5, -2, 4, 4, 0, 20, 4, 8, 5, 1, 4, 28, -4, 17, 1], 4, 4);
    a.set(2, 2, half).unwrap();
    assert_eq!(a.determinant().unwrap(), r(1032));
    let inv = a.inverse().unwrap();
    assert_eq!(a.mlt(&inv).unwrap(), Matrix::identity(4).unwrap());
}
