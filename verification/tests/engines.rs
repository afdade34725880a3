//! Engine behaviour on concrete double-precision matrices: orthonormality,
//! reconstruction, triangularity, idempotence, cross-engine agreement, and
//! the fixed scenarios.

use gramschmidt::matrix::{Layout, Matrix};
use gramschmidt::parallel::{EarlyModified, ParallelConfig};
use gramschmidt::scalar::Scalar;
use gramschmidt::{cgs, cgs2, mgs, GramSchmidt, Modified};

/// Double-precision scalar backend for the engines.
#[derive(Clone, Copy, PartialEq, Debug)]
struct S(f64);

// The `*_spec` members are the ghost specification twins of the operations;
// outside the verified crate they are never called, and each is defined to
// coincide with the operation it names.
impl Scalar for S {
    fn plus_spec(self, other: Self) -> Self {
        S(self.0 + other.0)
    }
    fn minus_spec(self, other: Self) -> Self {
        S(self.0 - other.0)
    }
    fn times_spec(self, other: Self) -> Self {
        S(self.0 * other.0)
    }
    fn divided_by_spec(self, other: Self) -> Self {
        S(self.0 / other.0)
    }
    fn square_root_spec(self) -> Self {
        S(self.0.sqrt())
    }
    fn zero_spec() -> Self {
        S(0.0)
    }
    fn plus(self, other: Self) -> Self {
        S(self.0 + other.0)
    }
    fn minus(self, other: Self) -> Self {
        S(self.0 - other.0)
    }
    fn times(self, other: Self) -> Self {
        S(self.0 * other.0)
    }
    fn divided_by(self, other: Self) -> Self {
        S(self.0 / other.0)
    }
    fn square_root(self) -> Self {
        S(self.0.sqrt())
    }
    fn zero() -> Self {
        S(0.0)
    }
}

/// Build a matrix from values listed in the given layout's memory order.
fn mat(rows: usize, cols: usize, layout: Layout, vals: &[f64]) -> Matrix<S> {
    let data: Vec<S> = vals.iter().map(|x| S(*x)).collect();
    Matrix::from_shape_vec(rows, cols, layout, data).unwrap()
}

fn entry(m: &Matrix<S>, i: usize, j: usize) -> f64 {
    m.get(i, j).0
}

/// Largest deviation of Qᵀ·Q from the identity.
fn orth_err(q: &Matrix<S>) -> f64 {
    let mut worst: f64 = 0.0;
    for j1 in 0..q.cols {
        for j2 in 0..q.cols {
            let mut dot: f64 = 0.0;
            for i in 0..q.rows {
                dot += entry(q, i, j1) * entry(q, i, j2);
            }
            let expect = if j1 == j2 { 1.0 } else { 0.0 };
            let err = (dot - expect).abs();
            if err > worst {
                worst = err;
            }
        }
    }
    worst
}

/// Largest deviation of Q·R from A.
fn recon_err(a: &Matrix<S>, q: &Matrix<S>, r: &Matrix<S>) -> f64 {
    let mut worst: f64 = 0.0;
    for i in 0..a.rows {
        for j in 0..a.cols {
            let mut sum: f64 = 0.0;
            for k in 0..r.rows {
                sum += entry(q, i, k) * entry(r, k, j);
            }
            let err = (sum - entry(a, i, j)).abs();
            if err > worst {
                worst = err;
            }
        }
    }
    worst
}

/// Largest entrywise difference of two equally shaped matrices.
fn max_diff(a: &Matrix<S>, b: &Matrix<S>) -> f64 {
    let mut worst: f64 = 0.0;
    for i in 0..a.rows {
        for j in 0..a.cols {
            let err = (entry(a, i, j) - entry(b, i, j)).abs();
            if err > worst {
                worst = err;
            }
        }
    }
    worst
}

fn early(a: &Matrix<S>) -> (Matrix<S>, Matrix<S>) {
    EarlyModified::compute_once(a, ParallelConfig { workers: 3 }).unwrap()
}

fn identity4(layout: Layout) -> Matrix<S> {
    let mut vals = [0.0; 16];
    let mut k = 0;
    while k < 4 {
        vals[5 * k] = 1.0;
        k += 1;
    }
    mat(4, 4, layout, &vals)
}

/// Row-major values of the 4-by-4 matrix whose columns are
/// [2,0,0,0], [0.5,0.3,1,0], [0,0,0.7,0], [0,0,0,3].
const SMALL: [f64; 16] = [
    2.0, 0.5, 0.0, 0.0, //
    0.0, 0.3, 0.0, 0.0, //
    0.0, 1.0, 0.7, 0.0, //
    0.0, 0.0, 0.0, 3.0,
];

/// The same matrix in column-major memory order.
const F_SMALL: [f64; 16] = [
    2.0, 0.0, 0.0, 0.0, //
    0.5, 0.3, 1.0, 0.0, //
    0.0, 0.0, 0.7, 0.0, //
    0.0, 0.0, 0.0, 3.0,
];

/// A fixed 6-by-6 non-orthogonal matrix with known entries, row-major.
const LARGE: [f64; 36] = [
    -4.079764601288893, 4.831491499921403, -2.9560001027996132, -0.02239325297550033,
    -0.2672544204261703, -0.07718850306444144, //
    1.2917480323712418, 0.030479388871438983, 0.604549448561548, 0.013409783846041783,
    0.037439247530467186, 0.03153579130305008, //
    -47.584641085515464, 5.501371846864031, 41.39822251681311, -33.69079455346558,
    43.13388644338738, 68.7695035292409, //
    2.5268795799504997, 25.418530275775225, 33.473125141381374, 77.3391516894698,
    -44.091836957161426, 45.10932299622911, //
    -20.383209804181938, -19.163209972229616, 0.09795435026201423, -53.296988576627484,
    -88.482334971421, 16.757575995918756, //
    62.270964677492124, -75.82678462673792, -0.6889077708993588, 2.2569901796884064,
    9.21906803233946, 44.891962279862234,
];

fn large() -> Matrix<S> {
    mat(6, 6, Layout::RowMajor, &LARGE)
}

/// The Läuchli matrix for three columns: a row of ones over eps times the
/// identity, a canonically ill-conditioned input.
fn lauchli(eps: f64) -> Matrix<S> {
    mat(
        4,
        3,
        Layout::RowMajor,
        &[
            1.0, 1.0, 1.0, //
            eps, 0.0, 0.0, //
            0.0, eps, 0.0, //
            0.0, 0.0, eps,
        ],
    )
}

/// A fixed well-conditioned 6-by-6 matrix with entries of order one.
const MIXED: [f64; 36] = [
    0.91, -0.34, 0.52, 0.07, -0.66, 0.28, //
    -0.12, 0.88, 0.19, -0.45, 0.31, -0.73, //
    0.44, 0.05, -0.97, 0.26, 0.58, 0.14, //
    -0.67, 0.49, 0.23, 0.81, -0.09, 0.37, //
    0.21, -0.76, 0.41, 0.33, 0.92, -0.18, //
    0.08, 0.27, -0.55, -0.62, 0.13, 0.84,
];

#[test]
fn unity_stays_unity() {
    let a = identity4(Layout::RowMajor);
    let mut eng = Modified::from_matrix(&a).unwrap();
    eng.compute(&a).unwrap();
    for i in 0..4 {
        for j in 0..4 {
            let expect = if i == j { 1.0 } else { 0.0 };
            assert_eq!(entry(eng.q(), i, j), expect);
            assert_eq!(entry(eng.r(), i, j), expect);
        }
    }
}

#[test]
fn identity_exact_all_engines() {
    let a = identity4(Layout::RowMajor);
    let results = [
        cgs(&a).unwrap(),
        cgs2(&a).unwrap(),
        mgs(&a).unwrap(),
        early(&a),
    ];
    for (q, r) in results.iter() {
        for i in 0..4 {
            for j in 0..4 {
                let expect = if i == j { 1.0 } else { 0.0 };
                assert_eq!(entry(q, i, j), expect);
                assert_eq!(entry(r, i, j), expect);
            }
        }
    }
}

#[test]
fn f_order_unity_stays_unity() {
    let a = identity4(Layout::ColumnMajor);
    let (q, r) = mgs(&a).unwrap();
    for i in 0..4 {
        for j in 0..4 {
            let expect = if i == j { 1.0 } else { 0.0 };
            assert_eq!(entry(&q, i, j), expect);
            assert_eq!(entry(&r, i, j), expect);
        }
    }
}

#[test]
fn small_orthogonal() {
    let a = mat(4, 4, Layout::RowMajor, &SMALL);
    let (q_c, _) = cgs(&a).unwrap();
    let (q_c2, _) = cgs2(&a).unwrap();
    let (q_m, _) = mgs(&a).unwrap();
    assert!(orth_err(&q_c) < 1e-12);
    assert!(orth_err(&q_c2) < 1e-13);
    assert!(orth_err(&q_m) < 1e-13);
}

#[test]
fn small_qr_returns_original() {
    let a = mat(4, 4, Layout::RowMajor, &SMALL);
    let (q_c, r_c) = cgs(&a).unwrap();
    let (q_c2, r_c2) = cgs2(&a).unwrap();
    let (q_m, r_m) = mgs(&a).unwrap();
    assert!(recon_err(&a, &q_c, &r_c) < 1e-12);
    assert!(recon_err(&a, &q_c2, &r_c2) < 1e-13);
    assert!(recon_err(&a, &q_m, &r_m) < 1e-13);
}

#[test]
fn f_order_small_orthogonal_and_reconstructs() {
    let a = mat(4, 4, Layout::ColumnMajor, &F_SMALL);
    let (q_c, r_c) = cgs(&a).unwrap();
    let (q_m, r_m) = mgs(&a).unwrap();
    assert!(orth_err(&q_c) < 1e-12);
    assert!(orth_err(&q_m) < 1e-13);
    assert!(recon_err(&a, &q_c, &r_c) < 1e-12);
    assert!(recon_err(&a, &q_m, &r_m) < 1e-13);
}

#[test]
fn small_r_diagonal_known_norms() {
    // The orthogonalized vector sequence [2,0.5,0,0], [0,0.3,0,0],
    // [0,1,0.7,0], [0,0,0,3] has these successive residual norms; the
    // engines consume the sequence as the columns of a matrix.
    let a = mat(
        4,
        4,
        Layout::RowMajor,
        &[
            2.0, 0.0, 0.0, 0.0, //
            0.5, 0.3, 1.0, 0.0, //
            0.0, 0.0, 0.7, 0.0, //
            0.0, 0.0, 0.0, 3.0,
        ],
    );
    let expected = [2.0615528128088303, 0.2910427500435996, 0.7, 3.0];
    let (_, r_c) = cgs(&a).unwrap();
    let (_, r_m) = mgs(&a).unwrap();
    for j in 0..4 {
        assert!((entry(&r_c, j, j) - expected[j]).abs() < 1e-12);
        assert!((entry(&r_m, j, j) - expected[j]).abs() < 1e-12);
    }
}

#[test]
fn large_orthogonal() {
    let a = large();
    let (q_c, _) = cgs(&a).unwrap();
    let (q_c2, _) = cgs2(&a).unwrap();
    let (q_m, _) = mgs(&a).unwrap();
    let (q_e, _) = early(&a);
    assert!(orth_err(&q_c) < 1e-12);
    assert!(orth_err(&q_c2) < 1e-13);
    assert!(orth_err(&q_m) < 1e-13);
    assert!(orth_err(&q_e) < 1e-13);
}

#[test]
fn large_qr_returns_original() {
    let a = large();
    let (q_c, r_c) = cgs(&a).unwrap();
    let (q_c2, r_c2) = cgs2(&a).unwrap();
    let (q_m, r_m) = mgs(&a).unwrap();
    let (q_e, r_e) = early(&a);
    assert!(recon_err(&a, &q_c, &r_c) < 1e-12);
    assert!(recon_err(&a, &q_c2, &r_c2) < 1e-12);
    assert!(recon_err(&a, &q_m, &r_m) < 1e-12);
    assert!(recon_err(&a, &q_e, &r_e) < 1e-12);
}

#[test]
fn f_order_large_orthogonal_and_reconstructs() {
    // The same fixed matrix, stored column by column.
    let mut vals = [0.0; 36];
    for i in 0..6 {
        for j in 0..6 {
            vals[j * 6 + i] = LARGE[i * 6 + j];
        }
    }
    let a = mat(6, 6, Layout::ColumnMajor, &vals);
    let (q_c, r_c) = cgs(&a).unwrap();
    let (q_m, r_m) = mgs(&a).unwrap();
    assert!(orth_err(&q_c) < 1e-12);
    assert!(orth_err(&q_m) < 1e-13);
    assert!(recon_err(&a, &q_c, &r_c) < 1e-12);
    assert!(recon_err(&a, &q_m, &r_m) < 1e-12);
}

#[test]
fn lauchli_stable_engines_stay_orthogonal() {
    let a = lauchli(1e-4);
    let (q_c2, _) = cgs2(&a).unwrap();
    let (q_m, _) = mgs(&a).unwrap();
    assert!(orth_err(&q_c2) < 1e-12);
    assert!(orth_err(&q_m) < 1e-12);
}

#[test]
fn lauchli_classical_loses_orthogonality() {
    // On the ill-conditioned Läuchli matrix the classical procedure loses
    // far more orthogonality than the stabilized procedures do.
    let a = lauchli(1e-4);
    let (q_c, _) = cgs(&a).unwrap();
    let (q_m, _) = mgs(&a).unwrap();
    let err_cgs = orth_err(&q_c);
    let err_mgs = orth_err(&q_m);
    assert!(err_cgs > 1e-10);
    assert!(err_mgs < 1e-12);
    assert!(err_cgs > err_mgs);
}

#[test]
fn lauchli_second_classical_pass_restores_orthogonality() {
    // One classical pass on the Läuchli matrix loses orthogonality
    // measurably; a second classical pass over its own Q output restores
    // it to near machine precision, which is exactly the effect the
    // reorthogonalized engine builds in.
    let a = lauchli(1e-4);
    let (q1, _) = cgs(&a).unwrap();
    let err1 = orth_err(&q1);
    let (q2, _) = cgs(&q1).unwrap();
    let err2 = orth_err(&q2);
    assert!(err1 > 1e-10);
    assert!(err2 < 1e-14);
    assert!(err2 < err1);
}

#[test]
fn compute_twice_same_results() {
    // Recomputing with the same input reproduces the factors exactly.
    let a = large();
    let mut eng = Modified::from_matrix(&a).unwrap();
    eng.compute(&a).unwrap();
    let q1: Vec<f64> = (0..36).map(|k| entry(eng.q(), k / 6, k % 6)).collect();
    let r1: Vec<f64> = (0..36).map(|k| entry(eng.r(), k / 6, k % 6)).collect();
    eng.compute(&a).unwrap();
    for k in 0..36 {
        assert_eq!(entry(eng.q(), k / 6, k % 6), q1[k]);
        assert_eq!(entry(eng.r(), k / 6, k % 6), r1[k]);
    }
}

#[test]
fn cross_engine_agreement() {
    // The sequential modified engine and the early-projection (parallel
    // ordering) engine agree within 1e-14 on a well-conditioned matrix.
    let a = mat(6, 6, Layout::RowMajor, &MIXED);
    let (q_m, r_m) = mgs(&a).unwrap();
    let (q_e, r_e) = early(&a);
    assert!(max_diff(&q_m, &q_e) < 1e-14);
    assert!(max_diff(&r_m, &r_e) < 1e-14);
}

#[test]
fn r_is_upper_triangular() {
    let a = large();
    let (_, r_c) = cgs(&a).unwrap();
    let (_, r_c2) = cgs2(&a).unwrap();
    let (_, r_m) = mgs(&a).unwrap();
    let (_, r_e) = early(&a);
    for r in [&r_c, &r_c2, &r_m, &r_e] {
        for i in 0..6 {
            for j in 0..i {
                assert_eq!(entry(r, i, j), 0.0);
            }
        }
    }
}

#[test]
fn tall_matrix_factorizes() {
    // More rows than columns: Q is 4 by 3 with orthonormal columns and R is
    // 3 by 3.
    let a = lauchli(0.5);
    let (q, r) = mgs(&a).unwrap();
    assert_eq!(q.rows, 4);
    assert_eq!(q.cols, 3);
    assert_eq!(r.rows, 3);
    assert_eq!(r.cols, 3);
    assert!(orth_err(&q) < 1e-14);
    assert!(recon_err(&a, &q, &r) < 1e-14);
}

#[test]
fn one_by_one_matrix() {
    let a = mat(1, 1, Layout::RowMajor, &[5.0]);
    let (q, r) = mgs(&a).unwrap();
    assert_eq!(entry(&q, 0, 0), 1.0);
    assert_eq!(entry(&r, 0, 0), 5.0);
}

#[test]
fn engine_reuse_across_inputs() {
    // One engine, two different inputs of the same shape: the second
    // factorization fully overwrites the first.
    let i4 = identity4(Layout::RowMajor);
    let s4 = mat(4, 4, Layout::RowMajor, &SMALL);
    let mut eng = Modified::from_matrix(&s4).unwrap();
    eng.compute(&s4).unwrap();
    eng.compute(&i4).unwrap();
    for i in 0..4 {
        for j in 0..4 {
            let expect = if i == j { 1.0 } else { 0.0 };
            assert_eq!(entry(eng.q(), i, j), expect);
            assert_eq!(entry(eng.r(), i, j), expect);
        }
    }
}

