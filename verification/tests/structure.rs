//! Structural behaviour: layout resolution, error reporting, construction,
//! and the worker partition.

use gramschmidt::matrix::{Layout, Matrix};
use gramschmidt::parallel::{partition_ranges, EarlyModified, ParallelConfig};
use gramschmidt::scalar::Scalar;
use gramschmidt::{Classical, Error, GramSchmidt, Modified, Reorthogonalized};

/// Double-precision scalar backend for the engines.
#[derive(Clone, Copy, PartialEq, Debug)]
struct S(f64);

// The `*_spec` members are the ghost specification twins of the operations;
// outside the verified crate they are never called, and each is defined to
// coincide with the operation it names.
impl Scalar for S {
    fn plus_spec(self, other: Self) -> Self {
        S(self.0 + other.0)
    }
    fn minus_spec(self, other: Self) -> Self {
        S(self.0 - other.0)
    }
    fn times_spec(self, other: Self) -> Self {
        S(self.0 * other.0)
    }
    fn divided_by_spec(self, other: Self) -> Self {
        S(self.0 / other.0)
    }
    fn square_root_spec(self) -> Self {
        S(self.0.sqrt())
    }
    fn zero_spec() -> Self {
        S(0.0)
    }
    fn plus(self, other: Self) -> Self {
        S(self.0 + other.0)
    }
    fn minus(self, other: Self) -> Self {
        S(self.0 - other.0)
    }
    fn times(self, other: Self) -> Self {
        S(self.0 * other.0)
    }
    fn divided_by(self, other: Self) -> Self {
        S(self.0 / other.0)
    }
    fn square_root(self) -> Self {
        S(self.0.sqrt())
    }
    fn zero() -> Self {
        S(0.0)
    }
}

fn svec(vals: &[f64]) -> Vec<S> {
    vals.iter().map(|x| S(*x)).collect()
}

fn square3(layout: Layout) -> Matrix<S> {
    Matrix::from_shape_vec(
        3,
        3,
        layout,
        svec(&[1.0, 2.0, 3.0, 4.0, 5.0, 6.0, 7.0, 8.0, 10.0]),
    )
    .unwrap()
}

/// A 2-by-2 window into a larger buffer: readable, but not contiguous.
fn strided_window() -> Matrix<S> {
    let data = svec(&[1.0, 2.0, 3.0, 4.0, 5.0, 6.0, 7.0, 8.0]);
    Matrix::with_strides(2, 2, 4, 1, data).unwrap()
}

#[test]
fn layout_resolver_row_major() {
    let m = square3(Layout::RowMajor);
    assert_eq!(m.contiguous_layout(), Some(Layout::RowMajor));
}

#[test]
fn layout_resolver_column_major() {
    let m = square3(Layout::ColumnMajor);
    assert_eq!(m.contiguous_layout(), Some(Layout::ColumnMajor));
}

#[test]
fn layout_resolver_rejects_window() {
    assert_eq!(strided_window().contiguous_layout(), None);
}

#[test]
fn layout_resolver_one_by_one_reads_row_major() {
    // A one-by-one matrix is one contiguous block in either order; the
    // resolver reports it as row-major whichever way it was built.
    let m = Matrix::from_shape_vec(1, 1, Layout::ColumnMajor, svec(&[7.0])).unwrap();
    assert_eq!(m.contiguous_layout(), Some(Layout::RowMajor));
}

#[test]
fn window_entries_are_read_through_strides() {
    let m = strided_window();
    assert_eq!(m.get(0, 0).0, 1.0);
    assert_eq!(m.get(0, 1).0, 2.0);
    assert_eq!(m.get(1, 0).0, 5.0);
    assert_eq!(m.get(1, 1).0, 6.0);
}

#[test]
fn from_shape_vec_rejects_wrong_length() {
    assert!(Matrix::from_shape_vec(2, 3, Layout::RowMajor, svec(&[1.0, 2.0, 3.0])).is_none());
}

#[test]
fn with_strides_rejects_out_of_bounds_window() {
    let data = svec(&[1.0, 2.0, 3.0, 4.0]);
    assert!(Matrix::<S>::with_strides(2, 2, 4, 1, data).is_none());
}

#[test]
fn compute_rejects_non_contiguous() {
    let w = strided_window();
    let mut eng = Modified::<S>::from_shape(2, 2, Layout::RowMajor).unwrap();
    assert_eq!(eng.compute(&w), Err(Error::NonContiguous));
}

#[test]
fn from_matrix_rejects_non_contiguous() {
    let w = strided_window();
    assert!(matches!(Modified::from_matrix(&w), Err(Error::NonContiguous)));
    assert!(matches!(Classical::from_matrix(&w), Err(Error::NonContiguous)));
    assert!(matches!(
        Reorthogonalized::from_matrix(&w),
        Err(Error::NonContiguous)
    ));
}

#[test]
fn compute_rejects_incompatible_layout() {
    let a = square3(Layout::ColumnMajor);
    let mut c = Classical::<S>::from_shape(3, 3, Layout::RowMajor).unwrap();
    let mut m = Modified::<S>::from_shape(3, 3, Layout::RowMajor).unwrap();
    let mut c2 = Reorthogonalized::<S>::from_shape(3, 3, Layout::RowMajor).unwrap();
    let mut e = EarlyModified::<S>::from_shape(3, 3, Layout::RowMajor, ParallelConfig {
        workers: 2,
    })
    .unwrap();
    assert_eq!(c.compute(&a), Err(Error::IncompatibleLayouts));
    assert_eq!(m.compute(&a), Err(Error::IncompatibleLayouts));
    assert_eq!(c2.compute(&a), Err(Error::IncompatibleLayouts));
    assert_eq!(e.compute(&a), Err(Error::IncompatibleLayouts));
}

#[test]
fn error_on_compute_leaves_factors_unchanged() {
    let a = square3(Layout::RowMajor);
    let wrong = square3(Layout::ColumnMajor);
    let mut eng = Modified::from_matrix(&a).unwrap();
    eng.compute(&a).unwrap();
    let before: Vec<f64> = (0..9).map(|k| eng.q().get(k / 3, k % 3).0).collect();
    assert_eq!(eng.compute(&wrong), Err(Error::IncompatibleLayouts));
    let after: Vec<f64> = (0..9).map(|k| eng.q().get(k / 3, k % 3).0).collect();
    assert_eq!(before, after);
}

#[test]
fn factors_are_zero_filled_at_construction() {
    let eng = Classical::<S>::from_shape(3, 2, Layout::RowMajor).unwrap();
    for i in 0..3 {
        for j in 0..2 {
            assert_eq!(eng.q().get(i, j).0, 0.0);
        }
    }
    for i in 0..2 {
        for j in 0..2 {
            assert_eq!(eng.r().get(i, j).0, 0.0);
        }
    }
}

#[test]
fn error_descriptions() {
    assert_eq!(
        Error::IncompatibleLayouts.description(),
        "The arrays representing the matrices don't have the same layouts."
    );
    assert_eq!(Error::NonContiguous.description(), "Array shape is not contiguous");
}

#[test]
fn partition_covers_range() {
    let v = partition_ranges(0, 10, 3);
    assert!(v.len() <= 3);
    assert_eq!(v.first().unwrap().0, 0);
    assert_eq!(v.last().unwrap().1, 10);
    for k in 1..v.len() {
        assert_eq!(v[k].0, v[k - 1].1);
    }
    for (lo, hi) in &v {
        assert!(lo < hi);
    }
}

#[test]
fn partition_empty_range() {
    assert!(partition_ranges(5, 5, 4).is_empty());
}

#[test]
fn partition_more_workers_than_items() {
    let v = partition_ranges(2, 5, 16);
    assert_eq!(v.first().unwrap().0, 2);
    assert_eq!(v.last().unwrap().1, 5);
    assert!(v.len() <= 16);
    for k in 1..v.len() {
        assert_eq!(v[k].0, v[k - 1].1);
    }
}

#[test]
fn ranges_for_step_partition_outstanding_columns() {
    let eng = EarlyModified::<S>::from_shape(8, 6, Layout::RowMajor, ParallelConfig {
        workers: 2,
    })
    .unwrap();
    let v = eng.ranges_for_step(1);
    assert!(v.len() <= 2);
    assert_eq!(v.first().unwrap().0, 2);
    assert_eq!(v.last().unwrap().1, 6);
    for k in 1..v.len() {
        assert_eq!(v[k].0, v[k - 1].1);
    }
    // The last step has no outstanding columns left.
    assert!(eng.ranges_for_step(5).is_empty());
}
