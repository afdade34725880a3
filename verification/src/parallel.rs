//! The early-projection ordering of the modified Gram-Schmidt procedure:
//! the ordering built for data-parallel execution.
//!
//! Where the late-projection ordering of [`crate::mgs`] corrects the current
//! column against every finalized one, the early ordering normalizes the
//! current column first and then removes its projection from every column
//! still outstanding. Each of those removals reads only the freshly
//! normalized column and rewrites one outstanding column, so the removals
//! of one step touch pairwise disjoint memory and may be distributed over
//! workers in any order; a step's removals must all complete before the
//! next column is normalized.
//!
//! [`EarlyModified`] performs the steps in ascending order in one thread
//! and is the engine's single source of truth: because every removal of a
//! step depends only on its own target column and the normalized column,
//! any scheduling of the removals over the disjoint ranges handed out by
//! [`EarlyModified::ranges_for_step`] produces exactly the factors this
//! engine is specified to produce.

use vstd::prelude::*;
use crate::Error;
use crate::kernel::{
    div_all,
    div_all_spec,
    dot,
    dot_spec,
    lower_triangle_zero,
    norm,
    norm_spec,
    sub_scaled,
    sub_scaled_spec,
};
use crate::matrix::{Layout, Matrix, lemma_dense_entries_determine_data, resolve_shape_layout};
use crate::scalar::Scalar;

verus! {

/// Explicit configuration of the worker pool that the distributed removals
/// are partitioned for: never ambient global state.
#[derive(Clone, Copy, Debug, PartialEq, Eq, Structural)]
pub struct ParallelConfig {
    /// The number of workers; at least one.
    pub workers: usize,
}

/// One early-projection step on the whole column set: column `i` is
/// normalized, every earlier column stays, and every later column has its
/// projection onto the normalized column removed.
pub open spec fn early_step_spec<T: Scalar>(cols: Seq<Seq<T>>, i: int) -> Seq<Seq<T>> {
    let nrm = norm_spec(cols[i]);
    let qi = div_all_spec(cols[i], nrm);
    Seq::new(
        cols.len(),
        |j: int|
            if j < i {
                cols[j]
            } else if j == i {
                qi
            } else {
                sub_scaled_spec(cols[j], dot_spec(qi, cols[j]), qi)
            },
    )
}

/// The whole column set after the first `i` early-projection steps,
/// starting from the columns of A.
pub open spec fn early_state_spec<T: Scalar>(a_cols: Seq<Seq<T>>, i: int) -> Seq<Seq<T>>
    decreases i,
{
    if i <= 0 {
        a_cols
    } else {
        early_step_spec(early_state_spec(a_cols, i - 1), i - 1)
    }
}

/// Entry (i, j) of the R factor of the early-projection procedure: the
/// norm that normalized column i on the diagonal, to its right the
/// coefficient removed from column j at step i, below it the untouched
/// zero.
pub open spec fn early_r_entry_spec<T: Scalar>(a_cols: Seq<Seq<T>>, i: int, j: int) -> T {
    let st = early_state_spec(a_cols, i);
    if i < j {
        dot_spec(div_all_spec(st[i], norm_spec(st[i])), st[j])
    } else if i == j {
        norm_spec(st[i])
    } else {
        T::zero_spec()
    }
}

/// What a step does to an outstanding column depends on nothing but that
/// column and the column being normalized: two column sets that agree on
/// those two places produce the same updated column, whatever stands
/// anywhere else. This is the no-data-dependency fact that lets a step's
/// removals run on disjoint ranges in any order and still produce exactly
/// the factors the engine is specified to produce.
pub proof fn lemma_early_step_independent<T: Scalar>(
    cols1: Seq<Seq<T>>,
    cols2: Seq<Seq<T>>,
    i: int,
    j: int,
)
    requires
        cols1.len() == cols2.len(),
        0 <= i < j < cols1.len(),
        cols1[i] == cols2[i],
        cols1[j] == cols2[j],
    ensures
        early_step_spec(cols1, i)[j] == early_step_spec(cols2, i)[j],
{
}

/// Early-projection steps preserve the number of columns.
pub proof fn lemma_early_state_len<T: Scalar>(a_cols: Seq<Seq<T>>, i: int)
    requires
        0 <= i,
    ensures
        early_state_spec(a_cols, i).len() == a_cols.len(),
    decreases i,
{
    if i > 0 {
        lemma_early_state_len(a_cols, i - 1);
    }
}

/// Split `lo..hi` into at most `workers` consecutive nonempty ranges that
/// cover it exactly. Disjointness is by construction: each range begins
/// where the previous one ends, so no two of them share an index, which is
/// the guarantee the distributed removals rely on instead of locks.
pub fn partition_ranges(lo: usize, hi: usize, workers: usize) -> (v: Vec<(usize, usize)>)
    requires
        1 <= workers,
        lo <= hi,
    ensures
        v@.len() <= workers,
        lo == hi ==> v@.len() == 0,
        lo < hi ==> v@.len() >= 1 && v@[0].0 == lo && v@[v@.len() - 1].1 == hi,
        forall|k: int| 0 <= k < v@.len() ==> lo <= (#[trigger] v@[k]).0 < v@[k].1 <= hi,
        forall|k: int| 1 <= k < v@.len() ==> (#[trigger] v@[k]).0 == v@[k - 1].1,
{
    let mut v: Vec<(usize, usize)> = Vec::new();
    let count = hi - lo;
    if count == 0 {
        return v;
    }
    let q = count / workers;
    let rem = count % workers;
    proof {
        vstd::arithmetic::div_mod::lemma_fundamental_div_mod(count as int, workers as int);
        vstd::arithmetic::div_mod::lemma_mod_division_less_than_divisor(count as int, workers as int);
        assert(rem != 0 ==> q < count) by (nonlinear_arith)
            requires
                1 <= workers,
                0 <= q,
                0 <= rem,
                count == workers * q + rem,
        ;
    }
    let chunk = if rem == 0 { q } else { q + 1 };
    proof {
        assert(count <= workers * chunk && 1 <= chunk) by (nonlinear_arith)
            requires
                1 <= workers,
                1 <= count,
                rem < workers,
                count == workers * q + rem,
                rem == 0 ==> chunk == q,
                rem != 0 ==> chunk == q + 1,
        ;
    }
    let mut start = lo;
    while start < hi
        invariant
            lo <= start <= hi,
            1 <= chunk,
            count == hi - lo,
            count <= workers * chunk,
            v@.len() <= workers,
            start < hi ==> start - lo == v@.len() * chunk,
            v@.len() >= 1 ==> v@[0].0 == lo && v@[v@.len() - 1].1 == start,
            v@.len() == 0 ==> start == lo,
            forall|k: int| 0 <= k < v@.len() ==> lo <= (#[trigger] v@[k]).0 < v@[k].1 <= hi,
            forall|k: int| 1 <= k < v@.len() ==> (#[trigger] v@[k]).0 == v@[k - 1].1,
        decreases hi - start,
    {
        proof {
            assert(v@.len() < workers) by (nonlinear_arith)
                requires
                    start - lo == v@.len() * chunk,
                    start - lo < count,
                    count <= workers * chunk,
                    1 <= chunk,
                    0 <= v@.len(),
            ;
        }
        let ghost prior = v@;
        let ghost start0 = start;
        let end = if hi - start > chunk {
            start + chunk
        } else {
            hi
        };
        v.push((start, end));
        start = end;
        proof {
            assert(v@.len() * chunk == prior.len() * chunk + chunk) by (nonlinear_arith)
                requires
                    v@.len() == prior.len() + 1,
            ;
            assert forall|k: int| 1 <= k < v@.len() implies (#[trigger] v@[k]).0 == v@[k - 1].1 by {
                if k == v@.len() - 1 {
                    assert(v@[k] == (start0, end));
                    assert(v@[k - 1] == prior[prior.len() - 1]);
                } else {
                    assert(v@[k] == prior[k]);
                    assert(v@[k - 1] == prior[k - 1]);
                }
            }
        }
    }
    v
}

/// Idempotence under recomputation: the early-projection procedure's factors are a function
/// of the input columns alone. Two computations over the same columns,
/// writing equally shaped and equally laid out buffers, leave bitwise
/// identical Q buffers and bitwise identical R buffers.
pub proof fn lemma_early_recompute_same<T: Scalar>(
    a_cols: Seq<Seq<T>>,
    n: int,
    q1: Matrix<T>,
    r1: Matrix<T>,
    q2: Matrix<T>,
    r2: Matrix<T>,
)
    requires
        q1.dense(),
        q2.dense(),
        q1.rows == q2.rows,
        q1.cols == q2.cols,
        q1.row_stride == q2.row_stride,
        q1.col_stride == q2.col_stride,
        q1.cols == n,
        q1.col_seq() == early_state_spec(a_cols, n),
        q2.col_seq() == early_state_spec(a_cols, n),
        r1.dense(),
        r2.dense(),
        r1.rows == n,
        r1.cols == n,
        r2.rows == n,
        r2.cols == n,
        r1.row_stride == r2.row_stride,
        r1.col_stride == r2.col_stride,
        forall|i: int, j: int|
            0 <= i < n && 0 <= j < n ==> #[trigger] r1.entry(i, j) == early_r_entry_spec(a_cols, i, j),
        forall|i: int, j: int|
            0 <= i < n && 0 <= j < n ==> #[trigger] r2.entry(i, j) == early_r_entry_spec(a_cols, i, j),
    ensures
        q1.data@ == q2.data@,
        r1.data@ == r2.data@,
{
    assert forall|i: int, j: int|
        0 <= i < q1.rows && 0 <= j < q1.cols implies #[trigger] q1.entry(i, j) == q2.entry(i, j) by {
        assert(q1.col_seq()[j][i] == q1.entry(i, j));
        assert(q2.col_seq()[j][i] == q2.entry(i, j));
    }
    lemma_dense_entries_determine_data(q1, q2);
    assert forall|i: int, j: int|
        0 <= i < r1.rows && 0 <= j < r1.cols implies #[trigger] r1.entry(i, j) == r2.entry(i, j) by {}
    lemma_dense_entries_determine_data(r1, r2);
}

/// No two of the handed-out ranges overlap: any earlier range ends no
/// later than a later range begins. Together with each worker writing only
/// columns inside its own range, this is the guarantee that no two workers
/// ever hold overlapping mutable regions.
pub proof fn lemma_ranges_disjoint(v: Seq<(usize, usize)>, k1: int, k2: int)
    requires
        forall|k: int| 0 <= k < v.len() ==> (#[trigger] v[k]).0 < v[k].1,
        forall|k: int| 1 <= k < v.len() ==> (#[trigger] v[k]).0 == v[k - 1].1,
        0 <= k1 < k2 < v.len(),
    ensures
        v[k1].1 <= v[k2].0,
    decreases k2 - k1,
{
    if k1 + 1 < k2 {
        lemma_ranges_disjoint(v, k1, k2 - 1);
    }
}

/// The early-projection modified Gram-Schmidt engine. It owns the Q and R
/// factors, allocated once for a fixed shape and memory layout and
/// overwritten in place by every [`EarlyModified::compute`] call, and
/// carries the worker-pool configuration its removals are partitioned for.
pub struct EarlyModified<T> {
    q: Matrix<T>,
    r: Matrix<T>,
    config: ParallelConfig,
    layout: Layout,
}

impl<T: Scalar> EarlyModified<T> {
    /// The engine's Q factor, for specifications.
    pub closed spec fn q_view(self) -> Matrix<T> {
        self.q
    }

    /// The engine's R factor, for specifications.
    pub closed spec fn r_view(self) -> Matrix<T> {
        self.r
    }

    /// The worker-pool configuration, for specifications.
    pub closed spec fn config_view(self) -> ParallelConfig {
        self.config
    }

    /// The memory layout the engine is bound to, for specifications.
    pub closed spec fn layout_view(self) -> Layout {
        self.layout
    }

    /// The engine's internal invariant: Q is dense in the bound layout with
    /// no fewer rows than columns, R is square over the column count in the
    /// matching layout with exact zeros strictly below its diagonal, and at
    /// least one worker is configured.
    pub open spec fn wf(self) -> bool {
        &&& self.q_view().dense()
        &&& self.q_view().layout_spec() == Some(self.layout_view())
        &&& self.q_view().cols <= self.q_view().rows
        &&& self.r_view().dense()
        &&& self.r_view().layout_spec() == Some(
            resolve_shape_layout(
                self.r_view().rows as int,
                self.r_view().cols as int,
                self.layout_view(),
            ),
        )
        &&& self.r_view().rows == self.q_view().cols
        &&& self.r_view().cols == self.q_view().cols
        &&& lower_triangle_zero(self.r_view())
        &&& 1 <= self.config_view().workers
    }

    /// Reserve a factorization for matrices of the given shape and memory
    /// layout, to be distributed over the configured worker pool. Q and R
    /// are allocated zero-filled; the engine is bound to the layout the
    /// resolver assigns.
    pub fn from_shape(rows: usize, cols: usize, layout: Layout, config: ParallelConfig) -> (res:
        Result<Self, Error>)
        requires
            cols <= rows,
            rows * cols <= usize::MAX,
            1 <= config.workers,
        ensures
            res is Ok,
            ({
                let g = res->Ok_0;
                &&& g.wf()
                &&& g.q_view().rows == rows
                &&& g.q_view().cols == cols
                &&& g.layout_view() == resolve_shape_layout(rows as int, cols as int, layout)
                &&& g.config_view() == config
                &&& forall|i: int, j: int|
                    0 <= i < rows && 0 <= j < cols ==> #[trigger] g.q_view().entry(i, j) == T::zero_spec()
                &&& forall|i: int, j: int|
                    0 <= i < cols && 0 <= j < cols ==> #[trigger] g.r_view().entry(i, j) == T::zero_spec()
            }),
    {
        proof {
            vstd::arithmetic::mul::lemma_mul_inequality(cols as int, rows as int, cols as int);
        }
        let q = Matrix::<T>::zeros(rows, cols, layout);
        let resolved = match q.contiguous_layout() {
            Some(l) => l,
            None => {
                proof {
                    assert(false);
                }
                layout
            },
        };
        let r = Matrix::<T>::zeros(cols, cols, resolved);
        Ok(EarlyModified { q, r, config, layout: resolved })
    }

    /// Reserve a factorization for matrices shaped and laid out like the
    /// sample `a`. Fails with [`Error::NonContiguous`] exactly when the
    /// sample is not contiguous.
    pub fn from_matrix(a: &Matrix<T>, config: ParallelConfig) -> (res: Result<Self, Error>)
        requires
            a.wf(),
            a.cols <= a.rows,
            a.rows * a.cols <= usize::MAX,
            1 <= config.workers,
        ensures
            match res {
                Ok(g) => {
                    &&& a.layout_spec() is Some
                    &&& g.wf()
                    &&& g.q_view().rows == a.rows
                    &&& g.q_view().cols == a.cols
                    &&& Some(g.layout_view()) == a.layout_spec()
                    &&& g.config_view() == config
                },
                Err(e) => {
                    &&& e == Error::NonContiguous
                    &&& a.layout_spec() is None
                },
            },
    {
        match a.contiguous_layout() {
            Some(layout) => Self::from_shape(a.rows, a.cols, layout, config),
            None => Err(Error::NonContiguous),
        }
    }

    /// The disjoint target ranges that step `i`'s removals are distributed
    /// over: a partition of the outstanding columns `i+1..cols` into at
    /// most `workers` consecutive pieces.
    pub fn ranges_for_step(&self, i: usize) -> (v: Vec<(usize, usize)>)
        requires
            self.wf(),
            i < self.q_view().cols,
        ensures
            v@.len() <= self.config_view().workers,
            i + 1 == self.q_view().cols ==> v@.len() == 0,
            i + 1 < self.q_view().cols ==> v@.len() >= 1 && v@[0].0 == i + 1
                && v@[v@.len() - 1].1 == self.q_view().cols,
            forall|k: int|
                0 <= k < v@.len() ==> i + 1 <= (#[trigger] v@[k]).0 < v@[k].1 <= self.q_view().cols,
            forall|k: int| 1 <= k < v@.len() ==> (#[trigger] v@[k]).0 == v@[k - 1].1,
    {
        partition_ranges(i + 1, self.q.cols, self.config.workers)
    }

    /// Compute the factorization of `a` in place by the early-projection
    /// modified procedure, applying each step's removals in ascending
    /// order.
    ///
    /// `a` must have exactly the configured shape; a mismatched shape is a
    /// caller error, excluded by precondition. A non-contiguous `a` is
    /// rejected with [`Error::NonContiguous`], a contiguous one in the other
    /// memory layout with [`Error::IncompatibleLayouts`]; on an error the
    /// engine is left exactly as it was. Otherwise every column of Q and
    /// every entry of R is pinned to the early-projection recurrence over
    /// the scalar backend's operations.
    pub fn compute(&mut self, a: &Matrix<T>) -> (res: Result<(), Error>)
        requires
            old(self).wf(),
            a.wf(),
            a.rows == old(self).q_view().rows,
            a.cols == old(self).q_view().cols,
        ensures
            final(self).wf(),
            final(self).layout_view() == old(self).layout_view(),
            final(self).config_view() == old(self).config_view(),
            final(self).q_view().same_frame(old(self).q_view()),
            final(self).r_view().same_frame(old(self).r_view()),
            res is Ok <==> a.layout_spec() == Some(old(self).layout_view()),
            match res {
                Ok(u) => {
                    &&& final(self).q_view().col_seq() == early_state_spec(a.col_seq(), a.cols as int)
                    &&& forall|i: int, j: int|
                        0 <= i < a.cols && 0 <= j < a.cols
                            ==> #[trigger] final(self).r_view().entry(i, j)
                                == early_r_entry_spec(a.col_seq(), i, j)
                },
                Err(e) => {
                    &&& *final(self) == *old(self)
                    &&& (e == Error::NonContiguous <==> a.layout_spec() is None)
                    &&& (e == Error::IncompatibleLayouts
                        <==> a.layout_spec() is Some && a.layout_spec() != Some(old(self).layout_view()))
                },
            },
    {
        match a.contiguous_layout() {
            None => {
                return Err(Error::NonContiguous);
            },
            Some(l) => {
                if l != self.layout {
                    return Err(Error::IncompatibleLayouts);
                }
            },
        }

        let ghost a_cols = a.col_seq();
        let ghost q0 = old(self).q;
        let ghost r0 = old(self).r;
        let ghost l0 = old(self).layout;
        let ghost c0 = old(self).config;
        let m = self.q.rows;
        let n = self.q.cols;

        // Load the columns of A into the Q buffer; the steps then reduce it
        // in place.
        let mut j: usize = 0;
        while j < n
            invariant
                a.wf(),
                a.rows == m,
                a.cols == n,
                a_cols == a.col_seq(),
                self.layout == l0,
                self.config == c0,
                self.r == r0,
                self.q.dense(),
                self.q.same_frame(q0),
                self.q.rows == m,
                self.q.cols == n,
                j <= n,
                forall|j2: int| 0 <= j2 < j ==> #[trigger] self.q.col(j2) == a_cols[j2],
            decreases n - j,
        {
            let c = a.read_col(j);
            self.q.write_col(j, &c);
            j = j + 1;
        }
        proof {
            assert(self.q.col_seq() =~= a_cols);
        }

        let mut i: usize = 0;
        while i < n
            invariant
                a.wf(),
                a.rows == m,
                a.cols == n,
                a_cols == a.col_seq(),
                self.layout == l0,
                self.config == c0,
                self.q.dense(),
                self.q.same_frame(q0),
                self.q.rows == m,
                self.q.cols == n,
                n <= m,
                self.r.dense(),
                self.r.same_frame(r0),
                self.r.rows == n,
                self.r.cols == n,
                i <= n,
                self.q.col_seq() == early_state_spec(a_cols, i as int),
                forall|ri: int, ci: int|
                    0 <= ri < i && 0 <= ci < n
                        ==> #[trigger] self.r.entry(ri, ci) == early_r_entry_spec(a_cols, ri, ci),
                forall|ri: int, ci: int|
                    i <= ri < n && 0 <= ci < ri ==> #[trigger] self.r.entry(ri, ci) == T::zero_spec(),
            decreases n - i,
        {
            let ghost st = early_state_spec(a_cols, i as int);
            let ghost nxt = early_step_spec(st, i as int);
            proof {
                lemma_early_state_len(a_cols, i as int);
                assert forall|jj: int| 0 <= jj < n implies (#[trigger] st[jj]).len() == m by {
                    assert(st[jj] == self.q.col(jj));
                }
            }

            // Normalize column i; its norm is R's diagonal entry.
            let mut v = self.q.read_col(i);
            let nrm = norm(&v);
            self.r.put(i, i, nrm);
            div_all(&mut v, nrm);
            self.q.write_col(i, &v);
            proof {
                assert(v@ == div_all_spec(st[i as int], norm_spec(st[i as int])));
            }

            // Remove the projection onto the normalized column from every
            // outstanding column. Each removal reads only `v` and rewrites
            // its own column, so the iterations are independent; here they
            // run in ascending order.
            let ghost r_mid = self.r;
            let mut j2: usize = i + 1;
            while j2 < n
                invariant
                    self.layout == l0,
                    self.config == c0,
                    a.rows == m,
                    a.cols == n,
                    i < n,
                    n <= m,
                    i + 1 <= j2 <= n,
                    v@ == div_all_spec(st[i as int], norm_spec(st[i as int])),
                    v@.len() == m,
                    st.len() == n,
                    nxt == early_step_spec(st, i as int),
                    forall|jj: int| 0 <= jj < st.len() ==> (#[trigger] st[jj]).len() == m,
                    self.q.dense(),
                    self.q.same_frame(q0),
                    self.q.rows == m,
                    self.q.cols == n,
                    forall|jj: int| 0 <= jj < j2 ==> #[trigger] self.q.col(jj) == nxt[jj],
                    forall|jj: int| j2 <= jj < n ==> #[trigger] self.q.col(jj) == st[jj],
                    self.r.dense(),
                    self.r.same_frame(r0),
                    self.r.rows == n,
                    self.r.cols == n,
                    forall|ri: int, ci: int|
                        0 <= ri < n && 0 <= ci < n && !(ri == i && i < ci < j2)
                            ==> #[trigger] self.r.entry(ri, ci) == r_mid.entry(ri, ci),
                    forall|ci: int|
                        i < ci < j2
                            ==> #[trigger] self.r.entry(i as int, ci)
                                == dot_spec(v@, st[ci]),
                decreases n - j2,
            {
                let mut w = self.q.read_col(j2);
                let c = dot(&v, &w);
                self.r.put(i, j2, c);
                sub_scaled(&mut w, c, &v);
                self.q.write_col(j2, &w);
                j2 = j2 + 1;
            }

            proof {
                assert(self.q.col_seq() =~= early_state_spec(a_cols, i + 1)) by {
                    assert(early_state_spec(a_cols, i + 1) == nxt);
                    assert forall|jj: int| 0 <= jj < n implies self.q.col_seq()[jj] == nxt[jj] by {
                        assert(self.q.col(jj) == nxt[jj]);
                    }
                    lemma_early_state_len(a_cols, i + 1);
                }
                assert forall|ri: int, ci: int|
                    0 <= ri < i + 1 && 0 <= ci < n
                        implies #[trigger] self.r.entry(ri, ci) == early_r_entry_spec(a_cols, ri, ci) by {
                    if ri == i {
                        if ci < i {
                            assert(self.r.entry(ri, ci) == T::zero_spec());
                        } else if ci == i {
                            assert(self.r.entry(ri, ci) == norm_spec(st[i as int]));
                        } else {
                            assert(self.r.entry(ri, ci) == dot_spec(v@, st[ci]));
                        }
                    } else {
                        assert(self.r.entry(ri, ci) == r_mid.entry(ri, ci));
                    }
                }
            }

            i = i + 1;
        }

        proof {
            lemma_early_state_len(a_cols, n as int);
        }
        Ok(())
    }

    /// One-shot form: construct an engine for `a`, compute the
    /// factorization once, and hand back the Q and R factors.
    pub fn compute_once(a: &Matrix<T>, config: ParallelConfig) -> (res: Result<(Matrix<T>, Matrix<T>), Error>)
        requires
            a.wf(),
            a.cols <= a.rows,
            a.rows * a.cols <= usize::MAX,
            1 <= config.workers,
        ensures
            res is Ok <==> a.layout_spec() is Some,
            match res {
                Ok(p) => {
                    &&& p.0.dense()
                    &&& p.0.rows == a.rows
                    &&& p.0.cols == a.cols
                    &&& p.0.col_seq() == early_state_spec(a.col_seq(), a.cols as int)
                    &&& p.1.dense()
                    &&& p.1.rows == a.cols
                    &&& p.1.cols == a.cols
                    &&& lower_triangle_zero(p.1)
                    &&& forall|i: int, j: int|
                        0 <= i < a.cols && 0 <= j < a.cols
                            ==> #[trigger] p.1.entry(i, j) == early_r_entry_spec(a.col_seq(), i, j)
                },
                Err(e) => e == Error::NonContiguous,
            },
    {
        let mut g = match Self::from_matrix(a, config) {
            Ok(g) => g,
            Err(e) => {
                return Err(e);
            },
        };
        match g.compute(a) {
            Ok(_) => {},
            Err(e) => {
                proof {
                    assert(false);
                }
                return Err(e);
            },
        }
        Ok((g.q, g.r))
    }

    /// A read-only view of the Q factor of the last computation.
    pub fn q(&self) -> (m: &Matrix<T>)
        ensures
            *m == self.q_view(),
    {
        &self.q
    }

    /// A read-only view of the R factor of the last computation.
    pub fn r(&self) -> (m: &Matrix<T>)
        ensures
            *m == self.r_view(),
    {
        &self.r
    }
}

} // verus!
