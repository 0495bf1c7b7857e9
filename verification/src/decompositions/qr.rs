//! The QR engine: one Householder reflection per column, and the
//! solve and determinant routines attached to the resulting
//! factorization `Q · R`.
//!
//! The single step of the construction that exact rational scalars
//! cannot supply is the square root of a sub-column norm, one per
//! column. The caller computes that root (the program around this
//! library takes it in floating point) and hands it to
//! [`householder_step`], which builds the reflector and applies it to
//! both factors, verified: given the root `s`, the reflection vector
//! `v` and the reflector `I - (2 / (v . v)) v vᵗ` are rational in
//! `s`. [`subcol_norm_sq`] supplies the radicand.

use vstd::prelude::*;
use crate::matrix::{Mat, col_of, ident_entry};
use crate::scalar::{
    Rat, Scalar, rat_add, rat_div, rat_eq, rat_mul, rat_neg, rat_new, rat_sign_factor, rat_sub,
    rat_one, rat_zero,
};
use crate::vector::{Vector, dot_prefix, lemma_dot_prefix_congruence};
use crate::decompositions::{
    back_subst, backward_subst, diag_prod, dot_range, lemma_dot_range_comm,
    lemma_dot_range_congruence,
};

verus! {

/// The squared norm of the sub-column `a[i..hi][i]`, accumulated top
/// to bottom.
pub open spec fn col_norm_sq(a: Seq<Seq<Rat>>, i: int, hi: int) -> Rat
    decreases hi - i,
{
    if hi <= i {
        rat_zero()
    } else {
        rat_add(col_norm_sq(a, i, hi - 1), rat_mul(a[hi - 1][i], a[hi - 1][i]))
    }
}

/// Entry `j` of the reflection vector for column `i`: the diagonal
/// entry less the sign-adjusted norm `s`, the raw sub-column below
/// it.
pub open spec fn refl_v(a: Seq<Seq<Rat>>, i: int, s: Rat, j: int) -> Rat {
    if j == i {
        rat_sub(a[i][i], s)
    } else {
        a[j][i]
    }
}

/// The squared norm of the reflection vector over rows `i..hi`.
pub open spec fn refl_norm_sq(a: Seq<Seq<Rat>>, i: int, s: Rat, hi: int) -> Rat
    decreases hi - i,
{
    if hi <= i {
        rat_zero()
    } else {
        rat_add(
            refl_norm_sq(a, i, s, hi - 1),
            rat_mul(refl_v(a, i, s, hi - 1), refl_v(a, i, s, hi - 1)),
        )
    }
}

/// Entry `(j, k)` of the Householder reflector for column `i` of an
/// `m`-row matrix: the identity outside the active block and when the
/// reflection vector has zero norm (the degraded case of a zero
/// sub-column), else `I - (2 / (v . v)) v vᵗ`.
pub open spec fn reflector_entry(
    a: Seq<Seq<Rat>>,
    i: int,
    s: Rat,
    m: int,
    j: int,
    k: int,
) -> Rat {
    if j < i || k < i || rat_eq(refl_norm_sq(a, i, s, m), rat_zero()) {
        ident_entry(j, k)
    } else {
        let t = rat_div(
            rat_mul(rat_mul(rat_new(2, 1), refl_v(a, i, s, j)), refl_v(a, i, s, k)),
            refl_norm_sq(a, i, s, m),
        );
        if j == k {
            rat_sub(rat_one(), t)
        } else {
            rat_neg(t)
        }
    }
}

/// The whole `m x m` Householder reflector for column `i`.
pub open spec fn reflector(a: Seq<Seq<Rat>>, i: int, s: Rat, m: int) -> Seq<Seq<Rat>> {
    Seq::new(m as nat, |j: int| Seq::new(m as nat, |k: int| reflector_entry(a, i, s, m, j, k)))
}

/// The squared norm of the sub-column `a[i..][i]`: the radicand whose
/// root the caller hands to [`householder_step`].
pub fn subcol_norm_sq(a: &Mat, i: usize) -> (r: Scalar)
    requires
        a.wf(),
        i < a.spec_rows(),
        i < a.spec_cols(),
    ensures
        r@ == col_norm_sq(a@, i as int, a.spec_rows() as int),
{
    let m = a.rows();
    let mut acc = Scalar::zero();
    let mut j: usize = i;
    while j < m
        invariant
            a.wf(),
            m == a.spec_rows(),
            i < m,
            i < a.spec_cols(),
            i <= j <= m,
            acc@ == col_norm_sq(a@, i as int, j as int),
        decreases m - j,
    {
        let x = a.get(j, i);
        acc = acc.add(x.mul(x));
        j += 1;
    }
    acc
}

/// Multiply `lhs` by `rhs`, touching only the columns from
/// `start_col` on; the columns before it are copied through
/// unchanged.
pub fn partial_matmul(lhs: &Mat, rhs: &Mat, start_col: usize) -> (out: Mat)
    requires
        lhs.wf(),
        rhs.wf(),
        lhs.spec_cols() == rhs.spec_rows(),
        rhs.spec_cols() == lhs.spec_cols(),
    ensures
        out.wf(),
        out.spec_rows() == lhs.spec_rows(),
        out.spec_cols() == lhs.spec_cols(),
        forall|x: int, y: int|
            0 <= x < lhs.spec_rows() && 0 <= y < lhs.spec_cols() ==> out@[x][y] == (if y
                >= start_col {
                dot_range(lhs@[x], col_of(rhs@, y), start_col as int, lhs.spec_cols() as int)
            } else {
                lhs@[x][y]
            }),
{
    let rows = lhs.rows();
    let cols = lhs.cols();
    let mut out = Mat::new((rows, cols));
    let mut x: usize = 0;
    while x < rows
        invariant
            lhs.wf(),
            rhs.wf(),
            lhs.spec_cols() == rhs.spec_rows(),
            rhs.spec_cols() == lhs.spec_cols(),
            rows == lhs.spec_rows(),
            cols == lhs.spec_cols(),
            out.wf(),
            out.spec_rows() == rows,
            out.spec_cols() == cols,
            x <= rows,
            forall|p: int, y: int|
                0 <= p < x && 0 <= y < cols ==> out@[p][y] == (if y >= start_col {
                    dot_range(lhs@[p], col_of(rhs@, y), start_col as int, cols as int)
                } else {
                    lhs@[p][y]
                }),
        decreases rows - x,
    {
        let mut y: usize = 0;
        while y < cols
            invariant
                lhs.wf(),
                rhs.wf(),
                lhs.spec_cols() == rhs.spec_rows(),
                rhs.spec_cols() == lhs.spec_cols(),
                rows == lhs.spec_rows(),
                cols == lhs.spec_cols(),
                out.wf(),
                out.spec_rows() == rows,
                out.spec_cols() == cols,
                x < rows,
                y <= cols,
                forall|p: int, q: int|
                    0 <= p < x && 0 <= q < cols ==> out@[p][q] == (if q >= start_col {
                        dot_range(lhs@[p], col_of(rhs@, q), start_col as int, cols as int)
                    } else {
                        lhs@[p][q]
                    }),
                forall|q: int|
                    0 <= q < y ==> out@[x as int][q] == (if q >= start_col {
                        dot_range(lhs@[x as int], col_of(rhs@, q), start_col as int, cols as int)
                    } else {
                        lhs@[x as int][q]
                    }),
            decreases cols - y,
        {
            let v = if y >= start_col {
                let mut acc = Scalar::zero();
                let mut k: usize = start_col;
                while k < cols
                    invariant
                        lhs.wf(),
                        rhs.wf(),
                        lhs.spec_cols() == rhs.spec_rows(),
                        rhs.spec_cols() == lhs.spec_cols(),
                        rows == lhs.spec_rows(),
                        cols == lhs.spec_cols(),
                        x < rows,
                        start_col <= y < cols,
                        start_col <= k <= cols,
                        acc@ == dot_range(
                            lhs@[x as int],
                            col_of(rhs@, y as int),
                            start_col as int,
                            k as int,
                        ),
                    decreases cols - k,
                {
                    acc = acc.add(lhs.get(x, k).mul(rhs.get(k, y)));
                    k += 1;
                }
                acc
            } else {
                lhs.get(x, y)
            };
            out.set(x, y, v);
            y += 1;
        }
        x += 1;
    }
    out
}

/// The right-hand side transformed by the transpose of `q`: entry `i`
/// accumulates column `i` of `q` against `b`.
pub open spec fn qt_vec(q: Seq<Seq<Rat>>, b: Seq<Rat>, n: int) -> Seq<Rat> {
    Seq::new(n as nat, |i: int| dot_prefix(col_of(q, i), b, n))
}

/// Build the Householder reflector for column `i` of `a` from the
/// supplied sign-adjusted norm `s`.
fn reflector_mat(a: &Mat, i: usize, s: Scalar) -> (h: Mat)
    requires
        a.wf(),
        a.spec_rows() * a.spec_rows() <= usize::MAX,
        i < a.spec_rows(),
        i < a.spec_cols(),
    ensures
        h.wf(),
        h.spec_rows() == a.spec_rows(),
        h.spec_cols() == a.spec_rows(),
        h@ == reflector(a@, i as int, s@, a.spec_rows() as int),
{
    let m = a.rows();

    let mut vv = Scalar::zero();
    let mut j: usize = i;
    while j < m
        invariant
            a.wf(),
            m == a.spec_rows(),
            i < m,
            i < a.spec_cols(),
            i <= j <= m,
            vv@ == refl_norm_sq(a@, i as int, s@, j as int),
        decreases m - j,
    {
        let vj = if j == i {
            a.get(i, i).sub(s)
        } else {
            a.get(j, i)
        };
        vv = vv.add(vj.mul(vj));
        j += 1;
    }
    let degraded = vv.equals(Scalar::zero());

    let mut h = Mat::new((m, m));
    let mut j: usize = 0;
    while j < m
        invariant
            a.wf(),
            m == a.spec_rows(),
            i < m,
            i < a.spec_cols(),
            vv@ == refl_norm_sq(a@, i as int, s@, m as int),
            degraded == rat_eq(vv@, rat_zero()),
            h.wf(),
            h.spec_rows() == m,
            h.spec_cols() == m,
            j <= m,
            forall|x: int, y: int|
                0 <= x < j && 0 <= y < m ==> h@[x][y] == reflector_entry(
                    a@,
                    i as int,
                    s@,
                    m as int,
                    x,
                    y,
                ),
        decreases m - j,
    {
        let mut k: usize = 0;
        while k < m
            invariant
                a.wf(),
                m == a.spec_rows(),
                i < m,
                i < a.spec_cols(),
                vv@ == refl_norm_sq(a@, i as int, s@, m as int),
                degraded == rat_eq(vv@, rat_zero()),
                h.wf(),
                h.spec_rows() == m,
                h.spec_cols() == m,
                j < m,
                k <= m,
                forall|x: int, y: int|
                    0 <= x < j && 0 <= y < m ==> h@[x][y] == reflector_entry(
                        a@,
                        i as int,
                        s@,
                        m as int,
                        x,
                        y,
                    ),
                forall|y: int|
                    0 <= y < k ==> h@[j as int][y] == reflector_entry(
                        a@,
                        i as int,
                        s@,
                        m as int,
                        j as int,
                        y,
                    ),
            decreases m - k,
        {
            let v = if j < i || k < i || degraded {
                if j == k {
                    Scalar::one()
                } else {
                    Scalar::zero()
                }
            } else {
                let vj = if j == i {
                    a.get(i, i).sub(s)
                } else {
                    a.get(j, i)
                };
                let vk = if k == i {
                    a.get(i, i).sub(s)
                } else {
                    a.get(k, i)
                };
                let t = Scalar::new(2, 1).mul(vj).mul(vk).div(vv);
                if j == k {
                    Scalar::one().sub(t)
                } else {
                    t.neg()
                }
            };
            h.set(j, k, v);
            k += 1;
        }
        j += 1;
    }
    proof {
        assert(h@ =~~= reflector(a@, i as int, s@, m as int));
    }
    h
}

/// One construction step: from the working pair `(q, a)`, the column
/// `i` and the sign-adjusted sub-column norm `s` — the one value the
/// caller must take a square root for — build the reflector `H` and
/// return `(q · H, H · a)`, each applied only to the active block.
pub fn householder_step(q: &Mat, a: &Mat, i: usize, s: Scalar) -> (r: (Mat, Mat))
    requires
        q.wf(),
        a.wf(),
        q.spec_rows() == a.spec_rows(),
        q.spec_cols() == a.spec_rows(),
        i < a.spec_rows(),
        i < a.spec_cols(),
    ensures
        r.0.wf(),
        r.0.spec_rows() == a.spec_rows(),
        r.0.spec_cols() == a.spec_rows(),
        forall|x: int, y: int|
            0 <= x < a.spec_rows() && 0 <= y < a.spec_rows() ==> r.0@[x][y] == (if y >= i {
                dot_range(
                    q@[x],
                    col_of(reflector(a@, i as int, s@, a.spec_rows() as int), y),
                    i as int,
                    a.spec_rows() as int,
                )
            } else {
                q@[x][y]
            }),
        r.1.wf(),
        r.1.spec_rows() == a.spec_rows(),
        r.1.spec_cols() == a.spec_cols(),
        forall|x: int, y: int|
            0 <= x < a.spec_rows() && 0 <= y < a.spec_cols() ==> r.1@[x][y] == (if x >= i {
                dot_range(
                    reflector(a@, i as int, s@, a.spec_rows() as int)[x],
                    col_of(a@, y),
                    i as int,
                    a.spec_rows() as int,
                )
            } else {
                a@[x][y]
            }),
{
    let ghost m = a.spec_rows() as int;
    let ghost hh = reflector(a@, i as int, s@, m);
    let h = reflector_mat(a, i, s);
    let new_q = partial_matmul(q, &h, i);

    let at = a.transposed();
    let ht = h.transposed();
    let new_at = partial_matmul(&at, &ht, i);
    let new_a = new_at.transposed();

    proof {
        assert forall|x: int, y: int|
            0 <= x < m && 0 <= y < a.spec_cols() implies new_a@[x][y] == (if x >= i {
            dot_range(hh[x], col_of(a@, y), i as int, m)
        } else {
            a@[x][y]
        }) by {
            assert(new_a@[x][y] == new_at@[y][x]);
            if x >= i {
                assert(new_at@[y][x] == dot_range(at@[y], col_of(ht@, x), i as int, m));
                assert forall|k: int| i <= k < m implies at@[y][k] == col_of(a@, y)[k]
                    && col_of(ht@, x)[k] == hh[x][k] by {}
                lemma_dot_range_congruence(
                    at@[y],
                    col_of(ht@, x),
                    col_of(a@, y),
                    hh[x],
                    i as int,
                    m,
                );
                lemma_dot_range_comm(col_of(a@, y), hh[x], i as int, m);
            } else {
                assert(new_at@[y][x] == at@[y][x]);
            }
        }
    }
    (new_q, new_a)
}

/// An orthogonal factorization: `q` orthogonal, `r` the reduced
/// matrix, upper-triangular for square input.
pub struct QR {
    pub q: Mat,
    pub r: Mat,
}

impl QR {
    /// Factors the solve routine can run on: both well-formed and
    /// square, of one size.
    pub open spec fn wf(&self) -> bool {
        &&& self.q.wf()
        &&& self.r.wf()
        &&& self.q.spec_rows() == self.q.spec_cols()
        &&& self.r.spec_rows() == self.q.spec_rows()
        &&& self.r.spec_cols() == self.q.spec_rows()
    }

    /// Solve the factored system against `b`: transform the
    /// right-hand side by the transpose of `q`, then back-substitute
    /// against `r`'s upper triangle. A zero diagonal entry of `r` is
    /// not guarded against; it yields non-finite entries.
    pub fn solve(&mut self, b: &Vector) -> (x: Vector)
        requires
            old(self).wf(),
            b@.len() == old(self).q.spec_rows(),
        ensures
            *final(self) == *old(self),
            x@ == back_subst(
                old(self).r@,
                qt_vec(old(self).q@, b@, b@.len() as int),
                b@.len() as int,
                0,
            ),
    {
        let ghost n = b@.len() as int;
        let qt = self.q.transposed();
        let y = qt.vecmul(b);
        proof {
            assert forall|i: int| 0 <= i < n implies y@[i] == qt_vec(self.q@, b@, n)[i] by {
                lemma_dot_prefix_congruence(qt@[i], b@, col_of(self.q@, i), b@, n);
            }
            assert(y@ =~= qt_vec(self.q@, b@, n));
        }
        let x = backward_subst(&self.r, &y);
        x
    }

    /// The determinant of the factored matrix: its sign from the
    /// product of `q`'s diagonal, its magnitude from the product of
    /// `r`'s diagonal.
    pub fn det(&self) -> (d: Scalar)
        requires
            self.q.wf(),
            self.r.wf(),
        ensures
            d@ == rat_mul(
                rat_sign_factor(
                    diag_prod(
                        self.q@,
                        if self.q.spec_rows() <= self.q.spec_cols() {
                            self.q.spec_rows() as int
                        } else {
                            self.q.spec_cols() as int
                        },
                    ),
                ),
                diag_prod(
                    self.r@,
                    if self.r.spec_rows() <= self.r.spec_cols() {
                        self.r.spec_rows() as int
                    } else {
                        self.r.spec_cols() as int
                    },
                ),
            ),
    {
        let nq = if self.q.rows() <= self.q.cols() {
            self.q.rows()
        } else {
            self.q.cols()
        };
        let mut itq = self.q.iter_trace();
        let mut dq = Scalar::one();
        let mut i: usize = 0;
        while i < nq
            invariant
                self.q.wf(),
                itq.wf(),
                itq.spec_matrix() == self.q,
                itq.spec_min_dim() == nq,
                itq.spec_current() == i,
                i <= nq,
                dq@ == diag_prod(self.q@, i as int),
            decreases nq - i,
        {
            let s = itq.next().unwrap();
            dq = dq.mul(s);
            i += 1;
        }

        let nr = if self.r.rows() <= self.r.cols() {
            self.r.rows()
        } else {
            self.r.cols()
        };
        let mut itr = self.r.iter_trace();
        let mut dr = Scalar::one();
        let mut i: usize = 0;
        while i < nr
            invariant
                self.r.wf(),
                itr.wf(),
                itr.spec_matrix() == self.r,
                itr.spec_min_dim() == nr,
                itr.spec_current() == i,
                i <= nr,
                dr@ == diag_prod(self.r@, i as int),
            decreases nr - i,
        {
            let s = itr.next().unwrap();
            dr = dr.mul(s);
            i += 1;
        }

        dq.sign_factor().mul(dr)
    }
}

} // verus!
