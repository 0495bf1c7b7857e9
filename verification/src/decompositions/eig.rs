//! The shifted-QR eigenvalue iteration, split at its one outside
//! step.
//!
//! Each pass of the iteration shifts the matrix by its bottom-right
//! diagonal entry, factorizes the shifted matrix into `Q · R`,
//! recomposes it as `R · Q` with the shift restored, and accumulates
//! the orthogonal factor — a caller-chosen number of times, with no
//! convergence test. The loop runs on the program side around this
//! library, because the factorization in each pass takes one square
//! root per column from there; everything else is verified: the
//! construction steps live beside the factorization itself, and here
//! [`shift_split`] prepares the shifted matrix, [`recompose_step`]
//! rebuilds the next iterate from the factors, and
//! [`EIG::from_iterate`] reads the result off the converged diagonal.

use vstd::prelude::*;
use crate::matrix::{Mat, col_of};
use crate::scalar::{Scalar, rat_add, rat_sub};
use crate::vector::{Vector, dot_prefix};
use crate::decompositions::qr::QR;

verus! {

/// Approximate eigenvalues and the matrix whose columns are the
/// accumulated orthogonal-transform directions.
pub struct EIG {
    pub eigvals: Vector,
    pub eigvecs: Mat,
}

/// Subtract the bottom-right diagonal entry from the whole diagonal
/// and hand it back beside the shifted matrix, ready to be
/// factorized.
pub fn shift_split(a: &Mat) -> (r: (Mat, Scalar))
    requires
        a.wf(),
        a.spec_rows() == a.spec_cols(),
        a.spec_rows() >= 1,
    ensures
        r.1@ == a@[a.spec_rows() - 1][a.spec_rows() - 1],
        r.0.wf(),
        r.0.spec_rows() == a.spec_rows(),
        r.0.spec_cols() == a.spec_rows(),
        forall|i: int, j: int|
            0 <= i < a.spec_rows() && 0 <= j < a.spec_rows() ==> r.0@[i][j] == (if i == j {
                rat_sub(a@[i][j], a@[a.spec_rows() - 1][a.spec_rows() - 1])
            } else {
                a@[i][j]
            }),
{
    let n = a.rows();
    let mu = a.get(n - 1, n - 1);
    let mut out = Mat::new((n, n));
    let mut i: usize = 0;
    while i < n
        invariant
            a.wf(),
            n == a.spec_rows(),
            n == a.spec_cols(),
            n >= 1,
            mu@ == a@[n - 1][n - 1],
            out.wf(),
            out.spec_rows() == n,
            out.spec_cols() == n,
            i <= n,
            forall|x: int, y: int|
                0 <= x < i && 0 <= y < n ==> out@[x][y] == (if x == y {
                    rat_sub(a@[x][y], a@[n - 1][n - 1])
                } else {
                    a@[x][y]
                }),
        decreases n - i,
    {
        let mut j: usize = 0;
        while j < n
            invariant
                a.wf(),
                n == a.spec_rows(),
                n == a.spec_cols(),
                n >= 1,
                mu@ == a@[n - 1][n - 1],
                out.wf(),
                out.spec_rows() == n,
                out.spec_cols() == n,
                i < n,
                j <= n,
                forall|x: int, y: int|
                    0 <= x < i && 0 <= y < n ==> out@[x][y] == (if x == y {
                        rat_sub(a@[x][y], a@[n - 1][n - 1])
                    } else {
                        a@[x][y]
                    }),
                forall|y: int|
                    0 <= y < j ==> out@[i as int][y] == (if i == y {
                        rat_sub(a@[i as int][y], a@[n - 1][n - 1])
                    } else {
                        a@[i as int][y]
                    }),
            decreases n - j,
        {
            let v = if i == j {
                a.get(i, j).sub(mu)
            } else {
                a.get(i, j)
            };
            out.set(i, j, v);
            j += 1;
        }
        i += 1;
    }
    (out, mu)
}

/// One recomposition: from the factors of the shifted matrix, the
/// shift itself and the accumulated transform, build the next iterate
/// `R · Q` with the shift restored on the diagonal, and the transform
/// with `Q` multiplied on.
pub fn recompose_step(f: &QR, shift: Scalar, eigvecs: &Mat) -> (r: (Mat, Mat))
    requires
        f.wf(),
        eigvecs.wf(),
        eigvecs.spec_rows() == f.q.spec_rows(),
        eigvecs.spec_cols() == f.q.spec_rows(),
    ensures
        r.0.wf(),
        r.0.spec_rows() == f.q.spec_rows(),
        r.0.spec_cols() == f.q.spec_rows(),
        forall|i: int, j: int|
            0 <= i < f.q.spec_rows() && 0 <= j < f.q.spec_rows() ==> r.0@[i][j] == (if i == j {
                rat_add(dot_prefix(f.r@[i], col_of(f.q@, j), f.q@.len() as int), shift@)
            } else {
                dot_prefix(f.r@[i], col_of(f.q@, j), f.q@.len() as int)
            }),
        r.1.wf(),
        r.1.spec_rows() == f.q.spec_rows(),
        r.1.spec_cols() == f.q.spec_rows(),
        forall|i: int, j: int|
            0 <= i < f.q.spec_rows() && 0 <= j < f.q.spec_rows() ==> r.1@[i][j] == dot_prefix(
                eigvecs@[i],
                col_of(f.q@, j),
                f.q@.len() as int,
            ),
{
    let n = f.q.rows();
    let mut next = f.r.matmul(&f.q);
    let mut i: usize = 0;
    while i < n
        invariant
            f.wf(),
            n == f.q.spec_rows(),
            next.wf(),
            next.spec_rows() == n,
            next.spec_cols() == n,
            i <= n,
            forall|x: int, y: int|
                0 <= x < n && 0 <= y < n && (x != y || x >= i) ==> next@[x][y] == dot_prefix(
                    f.r@[x],
                    col_of(f.q@, y),
                    f.q@.len() as int,
                ),
            forall|x: int|
                0 <= x < i ==> next@[x][x] == rat_add(
                    dot_prefix(f.r@[x], col_of(f.q@, x), f.q@.len() as int),
                    shift@,
                ),
        decreases n - i,
    {
        let v = next.get(i, i).add(shift);
        next.set(i, i, v);
        i += 1;
    }
    let vecs = eigvecs.matmul(&f.q);
    (next, vecs)
}

impl EIG {
    /// Read the result off a converged iterate: the eigenvalues are
    /// its diagonal, the eigenvectors the accumulated transform.
    pub fn from_iterate(a: &Mat, eigvecs: Mat) -> (e: EIG)
        requires
            a.wf(),
            a.spec_rows() == a.spec_cols(),
        ensures
            e.eigvals@.len() == a.spec_rows(),
            forall|i: int| 0 <= i < a.spec_rows() ==> e.eigvals@[i] == a@[i][i],
            e.eigvecs == eigvecs,
    {
        let n = a.rows();
        let mut eigvals = Vector::new(n);
        let mut i: usize = 0;
        while i < n
            invariant
                a.wf(),
                n == a.spec_rows(),
                n == a.spec_cols(),
                i <= n,
                eigvals@.len() == n,
                forall|x: int| 0 <= x < i ==> eigvals@[x] == a@[x][x],
            decreases n - i,
        {
            eigvals.set(i, a.get(i, i));
            i += 1;
        }
        EIG { eigvals, eigvecs }
    }
}

} // verus!
