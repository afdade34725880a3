//! Verified numeric kernels: dot product, Euclidean norm, scaled
//! subtraction in place, and the projection folds the engines' contracts
//! are stated with.
//!
//! Each executable kernel is pinned to a specification twin over sequences;
//! the engines never touch a buffer except through these kernels and the
//! column accessors of [`crate::matrix::Matrix`].

use vstd::prelude::*;
use vstd::pervasive::VecAdditionalExecFns;
use crate::matrix::Matrix;
use crate::scalar::Scalar;

verus! {

/// Dot product of two equally long vectors, accumulated left to right
/// starting from the zero scalar.
pub open spec fn dot_spec<T: Scalar>(v: Seq<T>, w: Seq<T>) -> T
    decreases v.len(),
{
    if v.len() == 0 {
        T::zero_spec()
    } else {
        dot_spec(v.drop_last(), w.drop_last()).plus_spec(v.last().times_spec(w.last()))
    }
}

/// Euclidean norm: the square root of the vector's dot product with itself.
pub open spec fn norm_spec<T: Scalar>(v: Seq<T>) -> T {
    dot_spec(v, v).square_root_spec()
}

/// `v - c*w`, entry by entry.
pub open spec fn sub_scaled_spec<T: Scalar>(v: Seq<T>, c: T, w: Seq<T>) -> Seq<T> {
    Seq::new(v.len(), |k: int| v[k].minus_spec(c.times_spec(w[k])))
}

/// Every entry of `v` divided by `d`.
pub open spec fn div_all_spec<T: Scalar>(v: Seq<T>, d: T) -> Seq<T> {
    Seq::new(v.len(), |k: int| v[k].divided_by_spec(d))
}

/// The projection coefficient of `v` against each direction in turn.
pub open spec fn proj_coeffs_spec<T: Scalar>(dirs: Seq<Seq<T>>, v: Seq<T>) -> Seq<T> {
    Seq::new(dirs.len(), |j: int| dot_spec(dirs[j], v))
}

/// `v` with `cs[j]`-scaled `dirs[j]` subtracted for each direction, left to
/// right, the coefficients having been fixed beforehand: the classical
/// correction pass.
pub open spec fn sub_projections_spec<T: Scalar>(v: Seq<T>, dirs: Seq<Seq<T>>, cs: Seq<T>) -> Seq<T>
    decreases dirs.len(),
{
    if dirs.len() == 0 {
        v
    } else {
        sub_scaled_spec(
            sub_projections_spec(v, dirs.drop_last(), cs.drop_last()),
            cs.last(),
            dirs.last(),
        )
    }
}

/// The modified reduction: each direction's projection is computed against
/// the *current* vector and removed before the next direction is visited.
pub open spec fn mgs_reduce_spec<T: Scalar>(v: Seq<T>, dirs: Seq<Seq<T>>) -> Seq<T>
    decreases dirs.len(),
{
    if dirs.len() == 0 {
        v
    } else {
        let u = mgs_reduce_spec(v, dirs.drop_last());
        sub_scaled_spec(u, dot_spec(dirs.last(), u), dirs.last())
    }
}

/// The coefficient the modified reduction removes along direction `j`.
pub open spec fn mgs_coeff_spec<T: Scalar>(v: Seq<T>, dirs: Seq<Seq<T>>, j: int) -> T {
    dot_spec(dirs[j], mgs_reduce_spec(v, dirs.take(j)))
}

/// Entries strictly below the diagonal are the zero scalar. The engines
/// never write below the diagonal, so this invariant of their R factor is
/// established at allocation and kept forever.
pub open spec fn lower_triangle_zero<T: Scalar>(r: Matrix<T>) -> bool {
    forall|i: int, j: int|
        0 <= i < r.rows && 0 <= j < r.cols && j < i ==> #[trigger] r.entry(i, j) == T::zero_spec()
}

/// Unrolling the classical correction pass one direction at a time.
pub proof fn lemma_sub_projections_take_step<T: Scalar>(v: Seq<T>, dirs: Seq<Seq<T>>, cs: Seq<T>, j: int)
    requires
        0 <= j < dirs.len(),
        j < cs.len(),
    ensures
        sub_projections_spec(v, dirs.take(j + 1), cs.take(j + 1))
            == sub_scaled_spec(sub_projections_spec(v, dirs.take(j), cs.take(j)), cs[j], dirs[j]),
{
    assert(dirs.take(j + 1).drop_last() =~= dirs.take(j));
    assert(cs.take(j + 1).drop_last() =~= cs.take(j));
}

/// Unrolling the modified reduction one direction at a time.
pub proof fn lemma_mgs_reduce_take_step<T: Scalar>(v: Seq<T>, dirs: Seq<Seq<T>>, j: int)
    requires
        0 <= j < dirs.len(),
    ensures
        mgs_reduce_spec(v, dirs.take(j + 1)) == ({
            let u = mgs_reduce_spec(v, dirs.take(j));
            sub_scaled_spec(u, dot_spec(dirs[j], u), dirs[j])
        }),
{
    assert(dirs.take(j + 1).drop_last() =~= dirs.take(j));
}

/// Dot product of two equally long vectors.
pub fn dot<T: Scalar>(v: &Vec<T>, w: &Vec<T>) -> (r: T)
    requires
        v@.len() == w@.len(),
    ensures
        r == dot_spec(v@, w@),
{
    let mut acc = T::zero();
    let mut k: usize = 0;
    while k < v.len()
        invariant
            v@.len() == w@.len(),
            k <= v@.len(),
            acc == dot_spec(v@.take(k as int), w@.take(k as int)),
        decreases v@.len() - k,
    {
        proof {
            assert(v@.take(k + 1).drop_last() =~= v@.take(k as int));
            assert(w@.take(k + 1).drop_last() =~= w@.take(k as int));
        }
        let t = v[k].times(w[k]);
        acc = acc.plus(t);
        k = k + 1;
    }
    proof {
        assert(v@.take(v@.len() as int) =~= v@);
        assert(w@.take(w@.len() as int) =~= w@);
    }
    acc
}

/// Euclidean norm of a vector.
pub fn norm<T: Scalar>(v: &Vec<T>) -> (r: T)
    ensures
        r == norm_spec(v@),
{
    let d = dot(v, v);
    d.square_root()
}

/// Replace `v` by `v - c*w` in place.
pub fn sub_scaled<T: Scalar>(v: &mut Vec<T>, c: T, w: &Vec<T>)
    requires
        old(v)@.len() == w@.len(),
    ensures
        final(v)@ == sub_scaled_spec(old(v)@, c, w@),
{
    let mut k: usize = 0;
    while k < v.len()
        invariant
            v@.len() == old(v)@.len(),
            old(v)@.len() == w@.len(),
            k <= v@.len(),
            forall|k2: int|
                0 <= k2 < k ==> v@[k2] == old(v)@[k2].minus_spec(c.times_spec(w@[k2])),
            forall|k2: int| k <= k2 < v@.len() ==> v@[k2] == old(v)@[k2],
        decreases v@.len() - k,
    {
        let t = c.times(w[k]);
        let x = v[k].minus(t);
        v.set(k, x);
        k = k + 1;
    }
    proof {
        assert(v@ =~= sub_scaled_spec(old(v)@, c, w@));
    }
}

/// Divide every entry of `v` by `d` in place.
pub fn div_all<T: Scalar>(v: &mut Vec<T>, d: T)
    ensures
        final(v)@ == div_all_spec(old(v)@, d),
{
    let mut k: usize = 0;
    while k < v.len()
        invariant
            v@.len() == old(v)@.len(),
            k <= v@.len(),
            forall|k2: int| 0 <= k2 < k ==> v@[k2] == old(v)@[k2].divided_by_spec(d),
            forall|k2: int| k <= k2 < v@.len() ==> v@[k2] == old(v)@[k2],
        decreases v@.len() - k,
    {
        let x = v[k].divided_by(d);
        v.set(k, x);
        k = k + 1;
    }
    proof {
        assert(v@ =~= div_all_spec(old(v)@, d));
    }
}

/// The projection coefficients of `v` against the first `upto` columns of
/// `q`: one batched pass over the already finalized columns.
pub fn proj_coeffs<T: Scalar>(q: &Matrix<T>, upto: usize, v: &Vec<T>) -> (cs: Vec<T>)
    requires
        q.wf(),
        upto <= q.cols,
        v@.len() == q.rows,
    ensures
        cs@ == proj_coeffs_spec(q.col_seq().take(upto as int), v@),
{
    let mut cs: Vec<T> = Vec::new();
    let mut j: usize = 0;
    while j < upto
        invariant
            q.wf(),
            upto <= q.cols,
            v@.len() == q.rows,
            j <= upto,
            cs@.len() == j,
            forall|j2: int| 0 <= j2 < j ==> cs@[j2] == dot_spec(q.col(j2), v@),
        decreases upto - j,
    {
        let d = q.read_col(j);
        let c = dot(&d, v);
        cs.push(c);
        j = j + 1;
    }
    proof {
        assert(cs@ =~= proj_coeffs_spec(q.col_seq().take(upto as int), v@));
    }
    cs
}

/// Remove from `v`, in place, the `cs[j]`-scaled column `j` of `q` for each
/// of the first `upto` columns in turn: the classical correction pass with
/// coefficients fixed beforehand.
pub fn sub_projections<T: Scalar>(v: &mut Vec<T>, q: &Matrix<T>, upto: usize, cs: &Vec<T>)
    requires
        q.wf(),
        upto <= q.cols,
        old(v)@.len() == q.rows,
        cs@.len() == upto,
    ensures
        final(v)@ == sub_projections_spec(old(v)@, q.col_seq().take(upto as int), cs@),
        final(v)@.len() == old(v)@.len(),
{
    let ghost v0 = old(v)@;
    let mut j: usize = 0;
    while j < upto
        invariant
            q.wf(),
            upto <= q.cols,
            cs@.len() == upto,
            j <= upto,
            v@.len() == q.rows,
            v@ == sub_projections_spec(v0, q.col_seq().take(j as int), cs@.take(j as int)),
        decreases upto - j,
    {
        proof {
            lemma_sub_projections_take_step(v0, q.col_seq(), cs@, j as int);
        }
        let d = q.read_col(j);
        sub_scaled(v, cs[j], &d);
        j = j + 1;
    }
    proof {
        assert(cs@.take(upto as int) =~= cs@);
    }
}

/// The modified reduction in place: returns the coefficient removed along
/// each of the first `upto` columns of `q`, each computed against the
/// vector as it stood when that column was visited.
pub fn mgs_reduce<T: Scalar>(v: &mut Vec<T>, q: &Matrix<T>, upto: usize) -> (cs: Vec<T>)
    requires
        q.wf(),
        upto <= q.cols,
        old(v)@.len() == q.rows,
    ensures
        final(v)@ == mgs_reduce_spec(old(v)@, q.col_seq().take(upto as int)),
        final(v)@.len() == old(v)@.len(),
        cs@.len() == upto,
        forall|j: int|
            0 <= j < upto ==> cs@[j] == mgs_coeff_spec(old(v)@, q.col_seq(), j),
{
    let ghost v0 = old(v)@;
    let mut cs: Vec<T> = Vec::new();
    let mut j: usize = 0;
    while j < upto
        invariant
            q.wf(),
            upto <= q.cols,
            j <= upto,
            cs@.len() == j,
            v@.len() == q.rows,
            v@ == mgs_reduce_spec(v0, q.col_seq().take(j as int)),
            forall|j2: int| 0 <= j2 < j ==> cs@[j2] == mgs_coeff_spec(v0, q.col_seq(), j2),
        decreases upto - j,
    {
        proof {
            lemma_mgs_reduce_take_step(v0, q.col_seq(), j as int);
        }
        let d = q.read_col(j);
        let c = dot(&d, v);
        cs.push(c);
        sub_scaled(v, c, &d);
        j = j + 1;
    }
    cs
}

} // verus!
