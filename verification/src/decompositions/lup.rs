//! The LUP engine: the same in-place elimination with partial
//! pivoting by column-maximum magnitude, carrying a permutation of the
//! row indices and the count of swaps for the determinant's sign.

use vstd::prelude::*;
use crate::matrix::Mat;
use crate::scalar::{
    Rat, Scalar, lemma_div_by_dominant, rat_abs, rat_abs_gt, rat_canon, rat_div, rat_is_nonzero,
    rat_le, rat_neg, rat_one,
};
use crate::vector::Vector;
use crate::decompositions::{
    backward_subst, det_with_parity, diag_prod, elim_row_cols, elim_rows, elim_steps,
    forward_subst, lu_compact, lup_mat, lup_perm, lup_stage, lup_swaps, ident_perm,
    perm_unit_col, pivot_row, swap_entries, swap_grid, two_pass_solve,
};

verus! {

/// The right-hand side with the permutation applied: entry `i` reads
/// `b[perm[i]]`.
pub open spec fn permute_rhs(perm: Seq<usize>, b: Seq<Rat>, n: int) -> Seq<Rat> {
    Seq::new(n as nat, |i: int| b[perm[i] as int])
}

/// The compact pivoted factorization: the eliminated matrix, the row
/// permutation (entry `i` is the original row now occupying position
/// `i`), and how many swaps the pivot scans made.
pub struct LUP {
    pub compact: Mat,
    pub perm: Vec<usize>,
    pub num_swaps: usize,
}

impl LUP {
    /// A usable factorization: a well-formed square compact matrix
    /// and a permutation of its row indices.
    pub open spec fn wf(&self) -> bool {
        &&& self.compact.wf()
        &&& self.compact.spec_rows() == self.compact.spec_cols()
        &&& self.perm@.len() == self.compact.spec_rows()
        &&& forall|i: int|
            0 <= i < self.perm@.len() ==> (#[trigger] self.perm@[i]) < self.compact.spec_rows()
    }
}

impl Mat {
    /// Factorize in place with partial pivoting, consuming the
    /// matrix: before eliminating each column, bring the row with the
    /// largest magnitude in that column to the pivot position,
    /// recording the move in the permutation and the swap count.
    pub fn lup(self) -> (r: LUP)
        requires
            self.wf(),
            self.spec_rows() == self.spec_cols(),
        ensures
            r.wf(),
            r.compact.spec_rows() == self.spec_rows(),
            r.compact@ == lup_mat(self@, self.spec_rows() as int, self.spec_rows() as int),
            r.perm@ == lup_perm(self@, self.spec_rows() as int, self.spec_rows() as int),
            r.num_swaps == lup_swaps(self@, self.spec_rows() as int, self.spec_rows() as int),
    {
        let ghost a0 = self@;
        let mut m = self;
        let n = m.rows();

        let mut perm: Vec<usize> = Vec::new();
        let mut t: usize = 0;
        while t < n
            invariant
                t <= n,
                perm@.len() == t,
                forall|i: int| 0 <= i < t ==> perm@[i] == i,
            decreases n - t,
        {
            perm.push(t);
            t += 1;
        }
        proof {
            assert(perm@ =~= ident_perm(n as int));
        }

        let mut num_swaps: usize = 0;
        let mut k: usize = 0;
        while k < n
            invariant
                m.wf(),
                m.spec_rows() == n,
                m.spec_cols() == n,
                k <= n,
                m@ == lup_mat(a0, n as int, k as int),
                perm@ == lup_perm(a0, n as int, k as int),
                perm@.len() == n,
                forall|i: int| 0 <= i < n ==> (#[trigger] perm@[i]) < n,
                num_swaps == lup_swaps(a0, n as int, k as int),
                num_swaps <= k,
            decreases n - k,
        {
            let mut p: usize = k;
            let mut i: usize = k + 1;
            while i < n
                invariant
                    m.wf(),
                    m.spec_rows() == n,
                    m.spec_cols() == n,
                    k < n,
                    k + 1 <= i <= n,
                    k <= p < i,
                    p == pivot_row(m@, k as int, i as int),
                decreases n - i,
            {
                if m.get(i, k).abs_gt(m.get(p, k)) {
                    p = i;
                }
                i += 1;
            }

            let ghost stage_start = m@;
            let ghost perm_start = perm@;
            if p != k {
                m.swap_rows(k, p);
                let pk = perm[k];
                let pp = perm[p];
                perm.set(k, pp);
                perm.set(p, pk);
                num_swaps += 1;
                proof {
                    assert(m@ =~~= swap_grid(stage_start, k as int, p as int));
                    assert(perm@ =~= swap_entries(perm_start, k as int, p as int));
                }
            }
            let ghost sw = m@;

            let mut i: usize = k + 1;
            while i < n
                invariant
                    m.wf(),
                    m.spec_rows() == n,
                    m.spec_cols() == n,
                    k < n,
                    k + 1 <= i <= n,
                    m@ == elim_rows(sw, n as int, k as int, i as int),
                decreases n - i,
            {
                let ghost mid = m@;
                let mult = m.get(i, k).div(m.get(k, k));
                m.set(i, k, mult);
                let mut j: usize = k + 1;
                while j < n
                    invariant
                        m.wf(),
                        m.spec_rows() == n,
                        m.spec_cols() == n,
                        k < n,
                        k < i < n,
                        k + 1 <= j <= n,
                        m@ == elim_row_cols(mid, k as int, i as int, j as int),
                    decreases n - j,
                {
                    let v = m.get(i, j).sub(m.get(i, k).mul(m.get(k, j)));
                    m.set(i, j, v);
                    j += 1;
                }
                proof {
                    assert(m@ == elim_rows(sw, n as int, k as int, i as int + 1));
                }
                i += 1;
            }
            proof {
                assert(m@ == lup_stage(stage_start, n as int, k as int));
                assert(m@ == lup_mat(a0, n as int, k as int + 1));
                assert(perm@ == lup_perm(a0, n as int, k as int + 1));
                assert(num_swaps == lup_swaps(a0, n as int, k as int + 1));
            }
            k += 1;
        }
        LUP { compact: m, perm, num_swaps }
    }
}

impl LUP {
    /// Solve the factored system against `b`: apply the permutation
    /// to the right-hand side, then run the two substitution passes.
    /// A zero diagonal entry is not guarded against; it yields
    /// non-finite entries in the result.
    pub fn solve(&mut self, b: &Vector) -> (x: Vector)
        requires
            old(self).wf(),
            b@.len() == old(self).compact.spec_rows(),
        ensures
            *final(self) == *old(self),
            x@ == two_pass_solve(
                old(self).compact@,
                permute_rhs(old(self).perm@, b@, b@.len() as int),
                b@.len() as int,
            ),
    {
        let n = b.len();
        let mut pb = Vector::new(n);
        let mut i: usize = 0;
        while i < n
            invariant
                self.wf(),
                *self == *old(self),
                b@.len() == self.compact.spec_rows(),
                n == b@.len(),
                i <= n,
                pb@.len() == n,
                forall|j: int| 0 <= j < i ==> pb@[j] == b@[self.perm@[j] as int],
            decreases n - i,
        {
            let idx = self.perm[i];
            pb.set(i, b.get(idx));
            i += 1;
        }
        proof {
            assert(pb@ =~= permute_rhs(self.perm@, b@, n as int));
        }
        let y = forward_subst(&self.compact, &pb);
        let x = backward_subst(&self.compact, &y);
        x
    }

    /// The inverse, built a column at a time by solving against each
    /// column of the permuted identity.
    pub fn inv(&self) -> (out: Mat)
        requires
            self.wf(),
        ensures
            out.wf(),
            out.spec_rows() == self.compact.spec_rows(),
            out.spec_cols() == self.compact.spec_rows(),
            forall|i: int, j: int|
                0 <= i < self.compact.spec_rows() && 0 <= j < self.compact.spec_rows()
                    ==> out@[i][j] == two_pass_solve(
                    self.compact@,
                    perm_unit_col(self.perm@, j, self.compact.spec_rows() as int),
                    self.compact.spec_rows() as int,
                )[i],
    {
        let n = self.compact.rows();
        let mut out = Mat::new((n, n));
        let mut j: usize = 0;
        while j < n
            invariant
                self.wf(),
                n == self.compact.spec_rows(),
                n == self.compact.spec_cols(),
                out.wf(),
                out.spec_rows() == n,
                out.spec_cols() == n,
                j <= n,
                forall|x: int, y: int|
                    0 <= x < n && 0 <= y < j ==> out@[x][y] == two_pass_solve(
                        self.compact@,
                        perm_unit_col(self.perm@, y, n as int),
                        n as int,
                    )[x],
            decreases n - j,
        {
            let mut e = Vector::new(n);
            let mut i: usize = 0;
            while i < n
                invariant
                    self.wf(),
                    n == self.compact.spec_rows(),
                    j < n,
                    i <= n,
                    e@.len() == n,
                    forall|p: int|
                        0 <= p < i ==> e@[p] == perm_unit_col(self.perm@, j as int, n as int)[p],
                decreases n - i,
            {
                let v = if self.perm[i] == j {
                    Scalar::one()
                } else {
                    Scalar::zero()
                };
                e.set(i, v);
                i += 1;
            }
            proof {
                assert(e@ =~= perm_unit_col(self.perm@, j as int, n as int));
            }
            let y = forward_subst(&self.compact, &e);
            let x = backward_subst(&self.compact, &y);
            let mut i: usize = 0;
            while i < n
                invariant
                    self.wf(),
                    n == self.compact.spec_rows(),
                    n == self.compact.spec_cols(),
                    out.wf(),
                    out.spec_rows() == n,
                    out.spec_cols() == n,
                    j < n,
                    i <= n,
                    x@.len() == n,
                    x@ == two_pass_solve(
                        self.compact@,
                        perm_unit_col(self.perm@, j as int, n as int),
                        n as int,
                    ),
                    forall|p: int, q: int|
                        0 <= p < n && 0 <= q < j ==> out@[p][q] == two_pass_solve(
                            self.compact@,
                            perm_unit_col(self.perm@, q, n as int),
                            n as int,
                        )[p],
                    forall|p: int|
                        0 <= p < i ==> out@[p][j as int] == two_pass_solve(
                            self.compact@,
                            perm_unit_col(self.perm@, j as int, n as int),
                            n as int,
                        )[p],
                decreases n - i,
            {
                out.set(i, j, x.get(i));
                i += 1;
            }
            j += 1;
        }
        out
    }

    /// The determinant of the factored matrix: the product of the
    /// diagonal of the compact factorization, negated when the swap
    /// count is odd.
    pub fn det(&self) -> (d: Scalar)
        requires
            self.wf(),
        ensures
            d@ == det_with_parity(
                self.compact@,
                self.compact.spec_rows() as int,
                self.num_swaps as nat,
            ),
    {
        let n = self.compact.rows();
        let mut it = self.compact.iter_trace();
        let mut d = Scalar::one();
        let mut i: usize = 0;
        while i < n
            invariant
                self.wf(),
                n == self.compact.spec_rows(),
                n == self.compact.spec_cols(),
                it.wf(),
                it.spec_matrix() == self.compact,
                it.spec_min_dim() == n,
                it.spec_current() == i,
                i <= n,
                d@ == diag_prod(self.compact@, i as int),
            decreases n - i,
        {
            let s = it.next().unwrap();
            d = d.mul(s);
            i += 1;
        }
        if self.num_swaps % 2 != 0 {
            d = d.neg();
        }
        d
    }
}

/// A rearrangement of the row indices `0..n`: every entry is below
/// `n` and no index appears twice.
pub open spec fn is_permutation(s: Seq<usize>, n: int) -> bool {
    &&& s.len() == n
    &&& forall|i: int| 0 <= i < n ==> (#[trigger] s[i]) < n
    &&& forall|i: int, j: int| 0 <= i < j < n ==> s[i] != s[j]
}

/// The pivot scan settles on a row between the stage's own and the
/// last it looked at.
pub proof fn lemma_pivot_row_in_range(m: Seq<Seq<Rat>>, k: int, i: int)
    requires
        k + 1 <= i,
    ensures
        k <= pivot_row(m, k, i) < i,
    decreases i - k,
{
    if i > k + 1 {
        lemma_pivot_row_in_range(m, k, i - 1);
    }
}

/// Law: the pivot scan passes over no larger-magnitude candidate —
/// among the rows it looked at, none strictly beats the chosen row in
/// magnitude.
pub proof fn lemma_pivot_row_max(m: Seq<Seq<Rat>>, k: int, i: int)
    requires
        k + 1 <= i,
        forall|j: int| k <= j < i ==> rat_canon(#[trigger] m[j][k]),
    ensures
        forall|j: int|
            k <= j < i ==> !rat_abs_gt(#[trigger] m[j][k], m[pivot_row(m, k, i)][k]),
    decreases i - k,
{
    lemma_pivot_row_in_range(m, k, i);
    if i > k + 1 {
        lemma_pivot_row_in_range(m, k, i - 1);
        lemma_pivot_row_max(m, k, i - 1);
        let p0 = pivot_row(m, k, i - 1);
        if rat_abs_gt(m[i - 1][k], m[p0][k]) {
            assert forall|j: int| k <= j < i implies !rat_abs_gt(
                #[trigger] m[j][k],
                m[i - 1][k],
            ) by {
                if j < i - 1 {
                    match (m[j][k], m[p0][k], m[i - 1][k]) {
                        (
                            Rat::Q { n: nj, d: dj },
                            Rat::Q { n: np, d: dp },
                            Rat::Q { n: nn, d: dn },
                        ) => {
                            let aj = if nj < 0 { -nj } else { nj };
                            let ap = if np < 0 { -np } else { np };
                            let an = if nn < 0 { -nn } else { nn };
                            assert(!(aj * dn > an * dj)) by (nonlinear_arith)
                                requires
                                    !(aj * dp > ap * dj),
                                    an * dp > ap * dn,
                                    dj >= 1,
                                    dp >= 1,
                                    dn >= 1,
                            ;
                        },
                        _ => {},
                    }
                }
            }
        }
    }
}

/// Law: under pivoting no finite multiplier exceeds one in magnitude:
/// any scanned entry divided by the chosen pivot gives a quotient of
/// magnitude at most one, whenever that quotient is finite.
pub proof fn lemma_pivot_multiplier_bounded(m: Seq<Seq<Rat>>, k: int, i: int, j: int)
    requires
        k <= j < i,
        forall|r: int| k <= r < i ==> rat_canon(#[trigger] m[r][k]),
        m[pivot_row(m, k, i)][k] is Q,
        rat_is_nonzero(m[pivot_row(m, k, i)][k]),
        rat_div(m[j][k], m[pivot_row(m, k, i)][k]) is Q,
    ensures
        rat_le(rat_abs(rat_div(m[j][k], m[pivot_row(m, k, i)][k])), rat_one()),
{
    lemma_pivot_row_in_range(m, k, i);
    lemma_pivot_row_max(m, k, i);
    lemma_div_by_dominant(m[j][k], m[pivot_row(m, k, i)][k]);
}

/// Law: the permutation the pivoted elimination carries is always a
/// rearrangement of the row indices `0..n`.
pub proof fn lemma_lup_perm_is_permutation(m: Seq<Seq<Rat>>, n: int, k: int)
    requires
        0 <= n <= usize::MAX,
        0 <= k <= n,
    ensures
        is_permutation(lup_perm(m, n, k), n),
    decreases k,
{
    if k > 0 {
        lemma_lup_perm_is_permutation(m, n, k - 1);
        lemma_pivot_row_in_range(lup_mat(m, n, k - 1), k - 1, n);
    }
}

/// Law: the pivoted determinant flips the sign of the diagonal
/// product exactly when the swap count is odd, and is the plain
/// diagonal product — the unpivoted determinant of the same compact
/// matrix — when it is even.
pub proof fn lemma_det_parity(c: Seq<Seq<Rat>>, n: int, swaps: nat)
    ensures
        swaps % 2 == 1 ==> det_with_parity(c, n, swaps) == rat_neg(diag_prod(c, n)),
        swaps % 2 == 0 ==> det_with_parity(c, n, swaps) == diag_prod(c, n),
{
}

/// Law: when no pivot scan swapped a row, the pivoted elimination
/// leaves exactly the compact matrix of the unpivoted elimination.
pub proof fn lemma_lup_without_swaps_is_lu(m: Seq<Seq<Rat>>, n: int, k: int)
    requires
        lup_swaps(m, n, k) == 0,
    ensures
        lup_mat(m, n, k) == elim_steps(m, n, k),
    decreases k,
{
    if k > 0 {
        assert(lup_swaps(m, n, k - 1) == 0);
        lemma_lup_without_swaps_is_lu(m, n, k - 1);
        assert(pivot_row(lup_mat(m, n, k - 1), k - 1, n) == k - 1);
    }
}

/// Law: with an even swap count of zero, the pivoted determinant
/// equals the unpivoted determinant of the same input.
pub proof fn lemma_lup_det_matches_lu_without_swaps(m: Seq<Seq<Rat>>, n: int)
    requires
        lup_swaps(m, n, n) == 0,
    ensures
        det_with_parity(lup_mat(m, n, n), n, lup_swaps(m, n, n)) == diag_prod(
            lu_compact(m, n),
            n,
        ),
{
    lemma_lup_without_swaps_is_lu(m, n, n);
}

} // verus!
