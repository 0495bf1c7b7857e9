//! The LU engine: in-place Doolittle elimination without pivoting,
//! and the solve, inverse and determinant routines derived from the
//! compact result.
//!
//! No zero pivot is guarded against: dividing by one produces the
//! scalar's absorbing non-finite value, which then propagates through
//! the rest of the factorization, exactly as the contracts state.

use vstd::prelude::*;
use crate::matrix::Mat;
use crate::scalar::{Rat, Scalar, rat_one, rat_zero};
use crate::vector::Vector;
use crate::decompositions::{
    backward_subst, diag_prod, elim_row_cols, elim_rows, elim_steps, forward_subst, lu_compact,
    two_pass_solve, unit_col,
};

verus! {

/// The compact factorization: one square matrix whose strict lower
/// triangle holds the elimination multipliers and whose upper
/// triangle, diagonal included, holds the reduced matrix.
pub struct LU {
    pub compact: Mat,
}

/// Entry `(i, j)` of the lower factor read off a compact
/// factorization: the stored multiplier below the diagonal, an
/// implicit one on it, zero above.
pub open spec fn lower_entry(c: Seq<Seq<Rat>>, i: int, j: int) -> Rat {
    if i == j {
        rat_one()
    } else if j < i {
        c[i][j]
    } else {
        rat_zero()
    }
}

/// Entry `(i, j)` of the upper factor read off a compact
/// factorization: the stored entry on and above the diagonal, zero
/// below.
pub open spec fn upper_entry(c: Seq<Seq<Rat>>, i: int, j: int) -> Rat {
    if j >= i {
        c[i][j]
    } else {
        rat_zero()
    }
}

impl Mat {
    /// Factorize in place without pivoting, consuming the matrix: for
    /// each column, store the multipliers below the diagonal and
    /// subtract the scaled pivot row from the rows beneath it.
    pub fn lu(self) -> (r: LU)
        requires
            self.wf(),
            self.spec_rows() == self.spec_cols(),
        ensures
            r.wf(),
            r.compact.spec_rows() == self.spec_rows(),
            r.compact@ == lu_compact(self@, self.spec_rows() as int),
    {
        let ghost a0 = self@;
        let mut m = self;
        let n = m.rows();
        let mut k: usize = 0;
        while k < n
            invariant
                m.wf(),
                m.spec_rows() == n,
                m.spec_cols() == n,
                k <= n,
                m@ == elim_steps(a0, n as int, k as int),
            decreases n - k,
        {
            let ghost stage = m@;
            let mut i: usize = k + 1;
            while i < n
                invariant
                    m.wf(),
                    m.spec_rows() == n,
                    m.spec_cols() == n,
                    k < n,
                    k + 1 <= i <= n,
                    stage == elim_steps(a0, n as int, k as int),
                    m@ == elim_rows(stage, n as int, k as int, i as int),
                decreases n - i,
            {
                let ghost mid = m@;
                let mult = m.get(i, k).div(m.get(k, k));
                m.set(i, k, mult);
                let mut j: usize = k + 1;
                while j < n
                    invariant
                        m.wf(),
                        m.spec_rows() == n,
                        m.spec_cols() == n,
                        k < n,
                        k < i < n,
                        k + 1 <= j <= n,
                        m@ == elim_row_cols(mid, k as int, i as int, j as int),
                    decreases n - j,
                {
                    let v = m.get(i, j).sub(m.get(i, k).mul(m.get(k, j)));
                    m.set(i, j, v);
                    j += 1;
                }
                proof {
                    assert(m@ == elim_rows(stage, n as int, k as int, i as int + 1));
                }
                i += 1;
            }
            proof {
                assert(m@ == elim_steps(a0, n as int, k as int + 1));
            }
            k += 1;
        }
        LU { compact: m }
    }
}

impl LU {
    /// A usable factorization: a well-formed square compact matrix.
    pub open spec fn wf(&self) -> bool {
        &&& self.compact.wf()
        &&& self.compact.spec_rows() == self.compact.spec_cols()
    }

    /// The lower factor: the stored multipliers under a unit diagonal,
    /// zero above it.
    pub fn l(&self) -> (out: Mat)
        requires
            self.wf(),
        ensures
            out.wf(),
            out.spec_rows() == self.compact.spec_rows(),
            out.spec_cols() == self.compact.spec_rows(),
            forall|i: int, j: int|
                0 <= i < self.compact.spec_rows() && 0 <= j < self.compact.spec_rows()
                    ==> out@[i][j] == lower_entry(self.compact@, i, j),
    {
        let n = self.compact.rows();
        let mut out = Mat::new((n, n));
        let mut i: usize = 0;
        while i < n
            invariant
                self.wf(),
                n == self.compact.spec_rows(),
                n == self.compact.spec_cols(),
                out.wf(),
                out.spec_rows() == n,
                out.spec_cols() == n,
                i <= n,
                forall|x: int, y: int|
                    0 <= x < i && 0 <= y < n ==> out@[x][y] == lower_entry(self.compact@, x, y),
            decreases n - i,
        {
            let mut j: usize = 0;
            while j < n
                invariant
                    self.wf(),
                    n == self.compact.spec_rows(),
                    n == self.compact.spec_cols(),
                    out.wf(),
                    out.spec_rows() == n,
                    out.spec_cols() == n,
                    i < n,
                    j <= n,
                    forall|x: int, y: int|
                        0 <= x < i && 0 <= y < n ==> out@[x][y] == lower_entry(
                            self.compact@,
                            x,
                            y,
                        ),
                    forall|y: int|
                        0 <= y < j ==> out@[i as int][y] == lower_entry(
                            self.compact@,
                            i as int,
                            y,
                        ),
                decreases n - j,
            {
                let v = if i == j {
                    Scalar::one()
                } else if j < i {
                    self.compact.get(i, j)
                } else {
                    Scalar::zero()
                };
                out.set(i, j, v);
                j += 1;
            }
            i += 1;
        }
        out
    }

    /// The upper factor: the stored entries on and above the diagonal,
    /// zero below it.
    pub fn u(&self) -> (out: Mat)
        requires
            self.wf(),
        ensures
            out.wf(),
            out.spec_rows() == self.compact.spec_rows(),
            out.spec_cols() == self.compact.spec_rows(),
            forall|i: int, j: int|
                0 <= i < self.compact.spec_rows() && 0 <= j < self.compact.spec_rows()
                    ==> out@[i][j] == upper_entry(self.compact@, i, j),
    {
        let n = self.compact.rows();
        let mut out = Mat::new((n, n));
        let mut i: usize = 0;
        while i < n
            invariant
                self.wf(),
                n == self.compact.spec_rows(),
                n == self.compact.spec_cols(),
                out.wf(),
                out.spec_rows() == n,
                out.spec_cols() == n,
                i <= n,
                forall|x: int, y: int|
                    0 <= x < i && 0 <= y < n ==> out@[x][y] == upper_entry(self.compact@, x, y),
            decreases n - i,
        {
            let mut j: usize = 0;
            while j < n
                invariant
                    self.wf(),
                    n == self.compact.spec_rows(),
                    n == self.compact.spec_cols(),
                    out.wf(),
                    out.spec_rows() == n,
                    out.spec_cols() == n,
                    i < n,
                    j <= n,
                    forall|x: int, y: int|
                        0 <= x < i && 0 <= y < n ==> out@[x][y] == upper_entry(
                            self.compact@,
                            x,
                            y,
                        ),
                    forall|y: int|
                        0 <= y < j ==> out@[i as int][y] == upper_entry(
                            self.compact@,
                            i as int,
                            y,
                        ),
                decreases n - j,
            {
                let v = if j >= i {
                    self.compact.get(i, j)
                } else {
                    Scalar::zero()
                };
                out.set(i, j, v);
                j += 1;
            }
            i += 1;
        }
        out
    }

    /// Both factors together.
    pub fn split(&self) -> (r: (Mat, Mat))
        requires
            self.wf(),
        ensures
            r.0.wf(),
            r.1.wf(),
            r.0.spec_rows() == self.compact.spec_rows(),
            r.0.spec_cols() == self.compact.spec_rows(),
            r.1.spec_rows() == self.compact.spec_rows(),
            r.1.spec_cols() == self.compact.spec_rows(),
            forall|i: int, j: int|
                0 <= i < self.compact.spec_rows() && 0 <= j < self.compact.spec_rows()
                    ==> r.0@[i][j] == lower_entry(self.compact@, i, j),
            forall|i: int, j: int|
                0 <= i < self.compact.spec_rows() && 0 <= j < self.compact.spec_rows()
                    ==> r.1@[i][j] == upper_entry(self.compact@, i, j),
    {
        (self.l(), self.u())
    }

    /// Solve the factored system against `b` by the two substitution
    /// passes. A zero diagonal entry is not guarded against; it yields
    /// non-finite entries in the result.
    pub fn solve(&mut self, b: &Vector) -> (x: Vector)
        requires
            old(self).wf(),
            b@.len() == old(self).compact.spec_rows(),
        ensures
            *final(self) == *old(self),
            x@ == two_pass_solve(old(self).compact@, b@, b@.len() as int),
    {
        let y = forward_subst(&self.compact, b);
        let x = backward_subst(&self.compact, &y);
        x
    }

    /// The inverse, built a column at a time by solving against each
    /// column of the identity.
    pub fn inv(&self) -> (out: Mat)
        requires
            self.wf(),
        ensures
            out.wf(),
            out.spec_rows() == self.compact.spec_rows(),
            out.spec_cols() == self.compact.spec_rows(),
            forall|i: int, j: int|
                0 <= i < self.compact.spec_rows() && 0 <= j < self.compact.spec_rows()
                    ==> out@[i][j] == two_pass_solve(
                    self.compact@,
                    unit_col(j, self.compact.spec_rows() as int),
                    self.compact.spec_rows() as int,
                )[i],
    {
        let n = self.compact.rows();
        let mut out = Mat::new((n, n));
        let mut j: usize = 0;
        while j < n
            invariant
                self.wf(),
                n == self.compact.spec_rows(),
                n == self.compact.spec_cols(),
                out.wf(),
                out.spec_rows() == n,
                out.spec_cols() == n,
                j <= n,
                forall|x: int, y: int|
                    0 <= x < n && 0 <= y < j ==> out@[x][y] == two_pass_solve(
                        self.compact@,
                        unit_col(y, n as int),
                        n as int,
                    )[x],
            decreases n - j,
        {
            let mut e = Vector::new(n);
            e.set(j, Scalar::one());
            proof {
                assert(e@ =~= unit_col(j as int, n as int));
            }
            let y = forward_subst(&self.compact, &e);
            let x = backward_subst(&self.compact, &y);
            let mut i: usize = 0;
            while i < n
                invariant
                    self.wf(),
                    n == self.compact.spec_rows(),
                    n == self.compact.spec_cols(),
                    out.wf(),
                    out.spec_rows() == n,
                    out.spec_cols() == n,
                    j < n,
                    i <= n,
                    x@.len() == n,
                    x@ == two_pass_solve(self.compact@, unit_col(j as int, n as int), n as int),
                    forall|p: int, q: int|
                        0 <= p < n && 0 <= q < j ==> out@[p][q] == two_pass_solve(
                            self.compact@,
                            unit_col(q, n as int),
                            n as int,
                        )[p],
                    forall|p: int|
                        0 <= p < i ==> out@[p][j as int] == two_pass_solve(
                            self.compact@,
                            unit_col(j as int, n as int),
                            n as int,
                        )[p],
                decreases n - i,
            {
                out.set(i, j, x.get(i));
                i += 1;
            }
            j += 1;
        }
        out
    }

    /// The determinant of the factored matrix: the product of the
    /// diagonal of the compact factorization, taken through the
    /// diagonal cursor.
    pub fn det(&self) -> (d: Scalar)
        requires
            self.wf(),
        ensures
            d@ == diag_prod(self.compact@, self.compact.spec_rows() as int),
    {
        let n = self.compact.rows();
        let mut it = self.compact.iter_trace();
        let mut d = Scalar::one();
        let mut i: usize = 0;
        while i < n
            invariant
                self.wf(),
                n == self.compact.spec_rows(),
                n == self.compact.spec_cols(),
                it.wf(),
                it.spec_matrix() == self.compact,
                it.spec_min_dim() == n,
                it.spec_current() == i,
                i <= n,
                d@ == diag_prod(self.compact@, i as int),
            decreases n - i,
        {
            let s = it.next().unwrap();
            d = d.mul(s);
            i += 1;
        }
        d
    }
}

} // verus!
