//! QR factorization of a dense real matrix by Gram-Schmidt orthogonalization.
//!
//! Three engines with different stability/performance trade-offs are provided:
//! classical ([`Classical`]), modified ([`Modified`]) and reorthogonalized
//! ([`Reorthogonalized`]) Gram-Schmidt, plus the early-projection ordering of
//! the modified procedure whose per-step updates are independent and can be
//! distributed over workers.
//!
//! The scalar arithmetic is injected through the [`Scalar`] trait, so an
//! optimized numeric backend can be swapped for a portable one without
//! touching the engine logic; the engines' contracts pin every entry of the
//! produced factors to the exact recurrence of the chosen procedure over the
//! backend's operations.

use vstd::prelude::*;

pub mod cgs;
pub mod cgs2;
pub mod kernel;
pub mod parallel;
pub mod matrix;
pub mod mgs;
pub mod scalar;

pub use cgs::Classical;
pub use cgs2::Reorthogonalized;
pub use mgs::Modified;
pub use parallel::EarlyModified;
pub use parallel::ParallelConfig;
pub use matrix::Layout;
pub use matrix::Matrix;
pub use scalar::Scalar;

verus! {

/// Errors reported when an engine rejects an input matrix.
#[derive(Clone, Copy, Debug, PartialEq, Eq, Structural)]
pub enum Error {
    /// The engine was configured for a different memory layout than the one
    /// of the matrix that was passed in.
    IncompatibleLayouts,
    /// The matrix elements do not form one contiguous row-major or
    /// column-major block.
    NonContiguous,
}

impl Error {
    /// A short description of the error condition.
    pub fn description(&self) -> (s: &'static str)
        ensures
            *self is IncompatibleLayouts ==> s@ =~= "The arrays representing the matrices don't have the same layouts."@,
            *self is NonContiguous ==> s@ =~= "Array shape is not contiguous"@,
    {
        proof {
            reveal_strlit("The arrays representing the matrices don't have the same layouts.");
            reveal_strlit("Array shape is not contiguous");
        }
        match self {
            Error::IncompatibleLayouts => "The arrays representing the matrices don't have the same layouts.",
            Error::NonContiguous => "Array shape is not contiguous",
        }
    }
}

/// The sequential factorization engines' common interface: reserve the
/// factors for a fixed shape and memory layout, compute into them in place
/// as often as wanted, and read them back.
///
/// Each implementing engine fixes its procedure by defining the two factor
/// specifications; the contract of [`GramSchmidt::compute`] then pins every
/// produced column of Q and every entry of R to them. At a concrete engine
/// type both specifications are open, so callers reason with the exact
/// recurrence of that procedure.
pub trait GramSchmidt<T: Scalar>: Sized {
    /// The first `i` columns of the Q factor this procedure derives from
    /// the input columns.
    spec fn factor_q_cols(a_cols: Seq<Seq<T>>, i: int) -> Seq<Seq<T>>;

    /// Entry (i, j) of the R factor this procedure derives from the input
    /// columns.
    spec fn factor_r_entry(a_cols: Seq<Seq<T>>, i: int, j: int) -> T;

    /// The engine's Q factor, for specifications.
    spec fn q_view(self) -> matrix::Matrix<T>;

    /// The engine's R factor, for specifications.
    spec fn r_view(self) -> matrix::Matrix<T>;

    /// The memory layout the engine is bound to, for specifications.
    spec fn layout_view(self) -> Layout;

    /// The engine's internal invariant.
    spec fn wf(self) -> bool;

    /// What every caller may rely on about a well-formed engine: Q is dense
    /// in the bound layout with no fewer rows than columns, R is dense and
    /// square over the column count, and R holds exact zeros strictly below
    /// its diagonal.
    proof fn wf_facts(self)
        requires
            self.wf(),
        ensures
            self.q_view().dense(),
            self.q_view().layout_spec() == Some(self.layout_view()),
            self.q_view().cols <= self.q_view().rows,
            self.r_view().dense(),
            self.r_view().rows == self.q_view().cols,
            self.r_view().cols == self.q_view().cols,
            kernel::lower_triangle_zero(self.r_view()),
    ;

    /// Reserve a factorization for matrices of the given shape and memory
    /// layout. Q and R are allocated zero-filled; the engine is bound to
    /// the layout the resolver assigns to that allocation.
    fn from_shape(rows: usize, cols: usize, layout: Layout) -> (res: Result<Self, Error>)
        requires
            cols <= rows,
            rows * cols <= usize::MAX,
        ensures
            res is Ok,
            ({
                let g = res->Ok_0;
                &&& g.wf()
                &&& g.q_view().rows == rows
                &&& g.q_view().cols == cols
                &&& g.layout_view() == matrix::resolve_shape_layout(rows as int, cols as int, layout)
                &&& forall|i: int, j: int|
                    0 <= i < rows && 0 <= j < cols
                        ==> #[trigger] g.q_view().entry(i, j) == T::zero_spec()
                &&& forall|i: int, j: int|
                    0 <= i < cols && 0 <= j < cols
                        ==> #[trigger] g.r_view().entry(i, j) == T::zero_spec()
            }),
    ;

    /// Compute the factorization of `a` in place.
    ///
    /// `a` must have exactly the configured shape; a mismatched shape is a
    /// caller error, excluded by precondition. A non-contiguous `a` is
    /// rejected with [`Error::NonContiguous`], a contiguous one in the
    /// other memory layout with [`Error::IncompatibleLayouts`]; on an error
    /// the engine is left exactly as it was. Otherwise every column of Q
    /// and every entry of R is pinned to the engine's procedure.
    fn compute(&mut self, a: &matrix::Matrix<T>) -> (res: Result<(), Error>)
        requires
            old(self).wf(),
            a.wf(),
            a.rows == old(self).q_view().rows,
            a.cols == old(self).q_view().cols,
        ensures
            final(self).wf(),
            final(self).layout_view() == old(self).layout_view(),
            final(self).q_view().same_frame(old(self).q_view()),
            final(self).r_view().same_frame(old(self).r_view()),
            res is Ok <==> a.layout_spec() == Some(old(self).layout_view()),
            match res {
                Ok(u) => {
                    &&& final(self).q_view().col_seq() == Self::factor_q_cols(a.col_seq(), a.cols as int)
                    &&& forall|i: int, j: int|
                        0 <= i < a.cols && 0 <= j < a.cols
                            ==> #[trigger] final(self).r_view().entry(i, j)
                                == Self::factor_r_entry(a.col_seq(), i, j)
                },
                Err(e) => {
                    &&& *final(self) == *old(self)
                    &&& (e == Error::NonContiguous <==> a.layout_spec() is None)
                    &&& (e == Error::IncompatibleLayouts
                        <==> a.layout_spec() is Some
                            && a.layout_spec() != Some(old(self).layout_view()))
                },
            },
    ;

    /// A read-only view of the Q factor of the last computation.
    fn q(&self) -> (m: &matrix::Matrix<T>)
        ensures
            *m == self.q_view(),
    ;

    /// A read-only view of the R factor of the last computation.
    fn r(&self) -> (m: &matrix::Matrix<T>)
        ensures
            *m == self.r_view(),
    ;

    /// Reserve a factorization for matrices shaped and laid out like the
    /// sample `a`. Fails with [`Error::NonContiguous`] exactly when the
    /// sample is not contiguous.
    fn from_matrix(a: &matrix::Matrix<T>) -> (res: Result<Self, Error>)
        requires
            a.wf(),
            a.cols <= a.rows,
            a.rows * a.cols <= usize::MAX,
        ensures
            match res {
                Ok(g) => {
                    &&& a.layout_spec() is Some
                    &&& g.wf()
                    &&& g.q_view().rows == a.rows
                    &&& g.q_view().cols == a.cols
                    &&& Some(g.layout_view()) == a.layout_spec()
                },
                Err(e) => {
                    &&& e == Error::NonContiguous
                    &&& a.layout_spec() is None
                },
            },
    {
        match a.contiguous_layout() {
            Some(layout) => Self::from_shape(a.rows, a.cols, layout),
            None => Err(Error::NonContiguous),
        }
    }

    /// One-shot form: construct an engine for `a`, compute the
    /// factorization once, and hand back copies of the Q and R factors.
    fn compute_once(a: &matrix::Matrix<T>) -> (res: Result<(matrix::Matrix<T>, matrix::Matrix<T>), Error>)
        requires
            a.wf(),
            a.cols <= a.rows,
            a.rows * a.cols <= usize::MAX,
        ensures
            res is Ok <==> a.layout_spec() is Some,
            match res {
                Ok(p) => {
                    &&& p.0.dense()
                    &&& p.0.rows == a.rows
                    &&& p.0.cols == a.cols
                    &&& p.0.col_seq() == Self::factor_q_cols(a.col_seq(), a.cols as int)
                    &&& p.1.dense()
                    &&& p.1.rows == a.cols
                    &&& p.1.cols == a.cols
                    &&& kernel::lower_triangle_zero(p.1)
                    &&& forall|i: int, j: int|
                        0 <= i < a.cols && 0 <= j < a.cols
                            ==> #[trigger] p.1.entry(i, j) == Self::factor_r_entry(a.col_seq(), i, j)
                },
                Err(e) => e == Error::NonContiguous,
            },
    {
        let mut g = match Self::from_matrix(a) {
            Ok(g) => g,
            Err(e) => {
                return Err(e);
            },
        };
        match g.compute(a) {
            Ok(u) => {},
            Err(e) => {
                proof {
                    assert(false);
                }
                return Err(e);
            },
        }
        proof {
            g.wf_facts();
        }
        let qm = g.q().copy_of();
        let rm = g.r().copy_of();
        proof {
            matrix::lemma_matrix_parts_determine(g.q_view(), qm);
            matrix::lemma_matrix_parts_determine(g.r_view(), rm);
        }
        Ok((qm, rm))
    }
}

/// Convenience form of the classical procedure: factorize `a` once and
/// return the pair `(Q, R)`. For repeated factorizations of one shape,
/// construct a [`Classical`] engine and call its `compute` method instead.
pub fn cgs<T: Scalar>(a: &Matrix<T>) -> (res: Result<(Matrix<T>, Matrix<T>), Error>)
    requires
        a.wf(),
        a.cols <= a.rows,
        a.rows * a.cols <= usize::MAX,
    ensures
        res is Ok <==> a.layout_spec() is Some,
        match res {
            Ok(p) => {
                &&& p.0.dense()
                &&& p.0.rows == a.rows
                &&& p.0.cols == a.cols
                &&& p.0.col_seq() == crate::cgs::cgs_q_cols(a.col_seq(), a.cols as int)
                &&& p.1.dense()
                &&& p.1.rows == a.cols
                &&& p.1.cols == a.cols
                &&& kernel::lower_triangle_zero(p.1)
                &&& forall|i: int, j: int|
                    0 <= i < a.cols && 0 <= j < a.cols
                        ==> #[trigger] p.1.entry(i, j) == crate::cgs::cgs_r_entry_spec(a.col_seq(), i, j)
            },
            Err(e) => e == Error::NonContiguous,
        },
{
    Classical::compute_once(a)
}

/// Convenience form of the reorthogonalized procedure: factorize `a` once
/// and return the pair `(Q, R)`. For repeated factorizations of one shape,
/// construct a [`Reorthogonalized`] engine and call its `compute` method
/// instead.
pub fn cgs2<T: Scalar>(a: &Matrix<T>) -> (res: Result<(Matrix<T>, Matrix<T>), Error>)
    requires
        a.wf(),
        a.cols <= a.rows,
        a.rows * a.cols <= usize::MAX,
    ensures
        res is Ok <==> a.layout_spec() is Some,
        match res {
            Ok(p) => {
                &&& p.0.dense()
                &&& p.0.rows == a.rows
                &&& p.0.cols == a.cols
                &&& p.0.col_seq() == crate::cgs2::cgs2_q_cols(a.col_seq(), a.cols as int)
                &&& p.1.dense()
                &&& p.1.rows == a.cols
                &&& p.1.cols == a.cols
                &&& kernel::lower_triangle_zero(p.1)
                &&& forall|i: int, j: int|
                    0 <= i < a.cols && 0 <= j < a.cols
                        ==> #[trigger] p.1.entry(i, j) == crate::cgs2::cgs2_r_entry_spec(a.col_seq(), i, j)
            },
            Err(e) => e == Error::NonContiguous,
        },
{
    Reorthogonalized::compute_once(a)
}

/// Convenience form of the modified procedure: factorize `a` once and
/// return the pair `(Q, R)`. For repeated factorizations of one shape,
/// construct a [`Modified`] engine and call its `compute` method instead.
pub fn mgs<T: Scalar>(a: &Matrix<T>) -> (res: Result<(Matrix<T>, Matrix<T>), Error>)
    requires
        a.wf(),
        a.cols <= a.rows,
        a.rows * a.cols <= usize::MAX,
    ensures
        res is Ok <==> a.layout_spec() is Some,
        match res {
            Ok(p) => {
                &&& p.0.dense()
                &&& p.0.rows == a.rows
                &&& p.0.cols == a.cols
                &&& p.0.col_seq() == crate::mgs::mgs_q_cols(a.col_seq(), a.cols as int)
                &&& p.1.dense()
                &&& p.1.rows == a.cols
                &&& p.1.cols == a.cols
                &&& kernel::lower_triangle_zero(p.1)
                &&& forall|i: int, j: int|
                    0 <= i < a.cols && 0 <= j < a.cols
                        ==> #[trigger] p.1.entry(i, j) == crate::mgs::mgs_r_entry_spec(a.col_seq(), i, j)
            },
            Err(e) => e == Error::NonContiguous,
        },
{
    Modified::compute_once(a)
}

} // verus!
