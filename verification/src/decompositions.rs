//! The factorization engines and the substitution machinery they
//! share.
//!
//! Every engine consumes a matrix by value and returns a typed result
//! whose contents are pinned, entry by entry, to the recurrences
//! below: the in-place Doolittle elimination (plain and pivoted), and
//! the forward/backward substitution passes that turn a compact
//! factorization into a solve, an inverse or a determinant.

use vstd::prelude::*;
use crate::matrix::{Mat, upd2};
use crate::scalar::{
    Rat, Scalar, lemma_rat_mul_comm, lemma_rat_mul_div_recover, lemma_rat_new_canon, rat_abs_gt,
    rat_add, rat_canon, rat_div, rat_is_nonzero, rat_mul, rat_neg, rat_one, rat_sub, rat_zero,
};
use crate::vector::Vector;

pub mod lu;
pub mod lup;
pub mod qr;
pub mod eig;

verus! {

/// Accumulation of `x[lo]*y[lo] + ... + x[hi-1]*y[hi-1]`, added left
/// to right, as the substitution loops do.
pub open spec fn dot_range(x: Seq<Rat>, y: Seq<Rat>, lo: int, hi: int) -> Rat
    decreases hi - lo,
{
    if hi <= lo {
        rat_zero()
    } else {
        rat_add(dot_range(x, y, lo, hi - 1), rat_mul(x[hi - 1], y[hi - 1]))
    }
}

/// A range accumulation reads nothing outside `lo..hi`: sequences
/// that agree there accumulate to the same value.
pub(crate) proof fn lemma_dot_range_congruence(
    x1: Seq<Rat>,
    y1: Seq<Rat>,
    x2: Seq<Rat>,
    y2: Seq<Rat>,
    lo: int,
    hi: int,
)
    requires
        forall|k: int| lo <= k < hi ==> x1[k] == x2[k] && y1[k] == y2[k],
    ensures
        dot_range(x1, y1, lo, hi) == dot_range(x2, y2, lo, hi),
    decreases hi - lo,
{
    if hi > lo {
        lemma_dot_range_congruence(x1, y1, x2, y2, lo, hi - 1);
    }
}

/// The two sequences of a range accumulation can swap roles: the
/// factors of every term commute.
pub(crate) proof fn lemma_dot_range_comm(x: Seq<Rat>, y: Seq<Rat>, lo: int, hi: int)
    ensures
        dot_range(x, y, lo, hi) == dot_range(y, x, lo, hi),
    decreases hi - lo,
{
    if hi > lo {
        lemma_dot_range_comm(x, y, lo, hi - 1);
        lemma_rat_mul_comm(x[hi - 1], y[hi - 1]);
    }
}

/// Stage `k` of the elimination applied to row `i`, columns up to `j`
/// (exclusive): the multiplier `m[i][k] / m[k][k]` is stored at
/// `(i, k)` first, then each entry `(i, j')` with `k < j' < j` has
/// multiplier times `m[k][j']` subtracted, left to right.
pub open spec fn elim_row_cols(m: Seq<Seq<Rat>>, k: int, i: int, j: int) -> Seq<Seq<Rat>>
    decreases j - k,
{
    if j <= k + 1 {
        upd2(m, i, k, rat_div(m[i][k], m[k][k]))
    } else {
        let p = elim_row_cols(m, k, i, j - 1);
        upd2(p, i, j - 1, rat_sub(p[i][j - 1], rat_mul(p[i][k], p[k][j - 1])))
    }
}

/// Stage `k` of the elimination applied to rows `k+1` up to `i`
/// (exclusive), each over all `n` columns.
pub open spec fn elim_rows(m: Seq<Seq<Rat>>, n: int, k: int, i: int) -> Seq<Seq<Rat>>
    decreases i - k,
{
    if i <= k + 1 {
        m
    } else {
        elim_row_cols(elim_rows(m, n, k, i - 1), k, i - 1, n)
    }
}

/// The first `k` stages of the in-place Doolittle elimination of an
/// `n x n` grid, without pivoting.
pub open spec fn elim_steps(m: Seq<Seq<Rat>>, n: int, k: int) -> Seq<Seq<Rat>>
    decreases k,
{
    if k <= 0 {
        m
    } else {
        elim_rows(elim_steps(m, n, k - 1), n, k - 1, n)
    }
}

/// The compact factorization the unpivoted elimination leaves in
/// place: strict lower triangle of multipliers, upper triangle of the
/// reduced matrix.
pub open spec fn lu_compact(m: Seq<Seq<Rat>>, n: int) -> Seq<Seq<Rat>> {
    elim_steps(m, n, n)
}

/// The row the pivot scan of stage `k` settles on after looking at
/// rows `k..i`: the first row whose entry in column `k` has the
/// strictly largest magnitude.
pub open spec fn pivot_row(m: Seq<Seq<Rat>>, k: int, i: int) -> int
    decreases i - k,
{
    if i <= k + 1 {
        k
    } else {
        let p = pivot_row(m, k, i - 1);
        if rat_abs_gt(m[i - 1][k], m[p][k]) {
            i - 1
        } else {
            p
        }
    }
}

/// A grid with rows `a` and `b` exchanged.
pub open spec fn swap_grid(m: Seq<Seq<Rat>>, a: int, b: int) -> Seq<Seq<Rat>> {
    m.update(a, m[b]).update(b, m[a])
}

/// A sequence with entries `a` and `b` exchanged.
pub open spec fn swap_entries(s: Seq<usize>, a: int, b: int) -> Seq<usize> {
    s.update(a, s[b]).update(b, s[a])
}

/// One pivoted stage: scan column `k`, swap the pivot row up if it is
/// not already in place, then eliminate below it.
pub open spec fn lup_stage(m: Seq<Seq<Rat>>, n: int, k: int) -> Seq<Seq<Rat>> {
    let p = pivot_row(m, k, n);
    let sw = if p != k {
        swap_grid(m, k, p)
    } else {
        m
    };
    elim_rows(sw, n, k, n)
}

/// The grid after the first `k` pivoted elimination stages.
pub open spec fn lup_mat(m: Seq<Seq<Rat>>, n: int, k: int) -> Seq<Seq<Rat>>
    decreases k,
{
    if k <= 0 {
        m
    } else {
        lup_stage(lup_mat(m, n, k - 1), n, k - 1)
    }
}

/// The identity permutation on `0..n`.
pub open spec fn ident_perm(n: int) -> Seq<usize> {
    Seq::new(n as nat, |i: int| i as usize)
}

/// The permutation after the first `k` pivoted stages: entry `i` is
/// the original row now occupying position `i`.
pub open spec fn lup_perm(m: Seq<Seq<Rat>>, n: int, k: int) -> Seq<usize>
    decreases k,
{
    if k <= 0 {
        ident_perm(n)
    } else {
        let p = pivot_row(lup_mat(m, n, k - 1), k - 1, n);
        let prev = lup_perm(m, n, k - 1);
        if p != k - 1 {
            swap_entries(prev, k - 1, p)
        } else {
            prev
        }
    }
}

/// How many of the first `k` pivoted stages actually swapped rows.
pub open spec fn lup_swaps(m: Seq<Seq<Rat>>, n: int, k: int) -> nat
    decreases k,
{
    if k <= 0 {
        0
    } else {
        lup_swaps(m, n, k - 1) + (if pivot_row(lup_mat(m, n, k - 1), k - 1, n) != k - 1 {
            1nat
        } else {
            0nat
        })
    }
}

/// The forward-substitution pass: entries `0..i` of the result hold
/// `b[r] - (row r of c, columns 0..r) . result`, computed in
/// ascending order; entries from `i` on still hold zero.
pub open spec fn fwd_subst(c: Seq<Seq<Rat>>, b: Seq<Rat>, i: int) -> Seq<Rat>
    decreases i,
{
    if i <= 0 {
        Seq::new(b.len(), |k: int| rat_zero())
    } else {
        let prev = fwd_subst(c, b, i - 1);
        prev.update(i - 1, rat_sub(b[i - 1], dot_range(c[i - 1], prev, 0, i - 1)))
    }
}

/// The backward-substitution pass: entries `i..n` of the result hold
/// `(y[r] - (row r of c, columns r+1..n) . result) / c[r][r]`,
/// computed in descending order; entries before `i` still hold `y`.
pub open spec fn back_subst(c: Seq<Seq<Rat>>, y: Seq<Rat>, n: int, i: int) -> Seq<Rat>
    decreases n - i,
{
    if i >= n {
        y
    } else {
        let w = back_subst(c, y, n, i + 1);
        w.update(i, rat_div(rat_sub(w[i], dot_range(c[i], w, i + 1, n)), c[i][i]))
    }
}

/// Both substitution passes in order: the solution of the compact
/// triangular system against the right-hand side `b`.
pub open spec fn two_pass_solve(c: Seq<Seq<Rat>>, b: Seq<Rat>, n: int) -> Seq<Rat> {
    back_subst(c, fwd_subst(c, b, n), n, 0)
}

/// The right-hand side column `j` of the identity, as the inverse
/// routines feed it to the substitution passes.
pub open spec fn unit_col(j: int, n: int) -> Seq<Rat> {
    Seq::new(n as nat, |i: int| if i == j { rat_one() } else { rat_zero() })
}

/// Column `j` of the identity with the permutation applied to it:
/// entry `i` is one exactly when `perm[i] == j`.
pub open spec fn perm_unit_col(perm: Seq<usize>, j: int, n: int) -> Seq<Rat> {
    Seq::new(n as nat, |i: int| if perm[i] == j { rat_one() } else { rat_zero() })
}

/// The product of the first `k` diagonal entries, multiplied left to
/// right.
pub open spec fn diag_prod(c: Seq<Seq<Rat>>, k: int) -> Rat
    decreases k,
{
    if k <= 0 {
        rat_one()
    } else {
        rat_mul(diag_prod(c, k - 1), c[k - 1][k - 1])
    }
}

/// A diagonal product with the parity of a swap count folded in: the
/// plain product for an even count, its negation for an odd one.
pub open spec fn det_with_parity(c: Seq<Seq<Rat>>, n: int, swaps: nat) -> Rat {
    if swaps % 2 == 1 {
        rat_neg(diag_prod(c, n))
    } else {
        diag_prod(c, n)
    }
}

/// The forward pass keeps the length of its input.
proof fn lemma_fwd_len(c: Seq<Seq<Rat>>, b: Seq<Rat>, i: int)
    requires
        i <= b.len(),
    ensures
        fwd_subst(c, b, i).len() == b.len(),
    decreases i,
{
    if i > 0 {
        lemma_fwd_len(c, b, i - 1);
    }
}

/// The backward pass keeps the length of its input.
proof fn lemma_back_len(c: Seq<Seq<Rat>>, y: Seq<Rat>, n: int, i: int)
    requires
        n <= y.len(),
        0 <= i,
    ensures
        back_subst(c, y, n, i).len() == y.len(),
    decreases n - i,
{
    if i < n {
        lemma_back_len(c, y, n, i + 1);
    }
}

/// Entries at or past `k` of the forward pass are untouched by the
/// steps after `k`.
proof fn lemma_fwd_stable(c: Seq<Seq<Rat>>, b: Seq<Rat>, j: int, k: int, m: int)
    requires
        0 <= m < k <= j,
        j <= b.len(),
    ensures
        fwd_subst(c, b, j)[m] == fwd_subst(c, b, k)[m],
    decreases j - k,
{
    if j > k {
        lemma_fwd_len(c, b, j - 1);
        lemma_fwd_stable(c, b, j - 1, k, m);
    }
}

/// Entries before `k` of the backward pass starting at `k` still hold
/// the input.
proof fn lemma_back_below(c: Seq<Seq<Rat>>, y: Seq<Rat>, n: int, k: int, m: int)
    requires
        0 <= m < k,
        n <= y.len(),
    ensures
        back_subst(c, y, n, k)[m] == y[m],
    decreases n - k,
{
    if k < n {
        lemma_back_len(c, y, n, k + 1);
        lemma_back_below(c, y, n, k + 1, m);
    }
}

/// Entries at or past `j` of the backward pass are already final when
/// the pass has reached `j`.
proof fn lemma_back_stable(c: Seq<Seq<Rat>>, y: Seq<Rat>, n: int, k: int, j: int, m: int)
    requires
        0 <= k <= j <= m,
        m < y.len(),
        n <= y.len(),
    ensures
        back_subst(c, y, n, k)[m] == back_subst(c, y, n, j)[m],
    decreases j - k,
{
    if k < j {
        lemma_back_len(c, y, n, k + 1);
        lemma_back_stable(c, y, n, k + 1, j, m);
    }
}

/// Law (forward rows): every entry of the completed forward pass
/// satisfies its lower-triangular row equation exactly:
/// `y[i] == b[i] - (row i of c, columns 0..i) . y`.
pub proof fn lemma_fwd_subst_row(c: Seq<Seq<Rat>>, b: Seq<Rat>, n: int, i: int)
    requires
        0 <= i < n <= b.len(),
    ensures
        fwd_subst(c, b, n)[i] == rat_sub(b[i], dot_range(c[i], fwd_subst(c, b, n), 0, i)),
{
    let full = fwd_subst(c, b, n);
    let part = fwd_subst(c, b, i);
    lemma_fwd_len(c, b, i);
    lemma_fwd_len(c, b, n);
    lemma_fwd_stable(c, b, n, i + 1, i);
    assert forall|m: int| 0 <= m < i implies full[m] == part[m] by {
        lemma_fwd_stable(c, b, n, i, m);
    }
    lemma_dot_range_congruence(c[i], full, c[i], part, 0, i);
}

/// Law (backward rows): every finite entry of the completed backward
/// pass satisfies its upper-triangular row equation exactly:
/// `c[i][i] * x[i] == y[i] - (row i of c, columns i+1..n) . x`,
/// provided the diagonal entry it divided by is a nonzero canonical
/// finite value.
pub proof fn lemma_back_subst_row(c: Seq<Seq<Rat>>, y: Seq<Rat>, n: int, i: int)
    requires
        0 <= i < n <= y.len(),
        rat_canon(c[i][i]),
        rat_is_nonzero(c[i][i]),
        back_subst(c, y, n, 0)[i] is Q,
    ensures
        rat_mul(c[i][i], back_subst(c, y, n, 0)[i]) == rat_sub(
            y[i],
            dot_range(c[i], back_subst(c, y, n, 0), i + 1, n),
        ),
{
    let x = back_subst(c, y, n, 0);
    let w = back_subst(c, y, n, i + 1);
    lemma_back_len(c, y, n, 0);
    lemma_back_len(c, y, n, i + 1);
    lemma_back_stable(c, y, n, 0, i, i);
    lemma_back_below(c, y, n, i + 1, i);
    assert forall|m: int| i + 1 <= m < n implies x[m] == w[m] by {
        lemma_back_stable(c, y, n, 0, i + 1, m);
    }
    lemma_dot_range_congruence(c[i], x, c[i], w, i + 1, n);
    let sv = rat_sub(y[i], dot_range(c[i], x, i + 1, n));
    assert(x[i] == rat_div(sv, c[i][i]));
    if !(sv is Q) {
        assert(rat_div(sv, c[i][i]) is Nan);
    }
    match (y[i], dot_range(c[i], x, i + 1, n)) {
        (Rat::Q { n: yn, d: yd }, Rat::Q { n: sn, d: sd }) => {
            lemma_rat_new_canon(yn * sd - sn * yd, yd * sd);
        },
        _ => {},
    }
    lemma_rat_mul_div_recover(sv, c[i][i]);
    lemma_rat_mul_comm(rat_div(sv, c[i][i]), c[i][i]);
}

/// Law (solve rows): every finite entry of the two-pass solution
/// satisfies its upper-triangular row equation against the forward
/// pass, whose own rows satisfy their lower-triangular equations.
pub proof fn lemma_two_pass_solve_row(c: Seq<Seq<Rat>>, b: Seq<Rat>, n: int, i: int)
    requires
        0 <= i < n <= b.len(),
        rat_canon(c[i][i]),
        rat_is_nonzero(c[i][i]),
        two_pass_solve(c, b, n)[i] is Q,
    ensures
        rat_mul(c[i][i], two_pass_solve(c, b, n)[i]) == rat_sub(
            fwd_subst(c, b, n)[i],
            dot_range(c[i], two_pass_solve(c, b, n), i + 1, n),
        ),
        fwd_subst(c, b, n)[i] == rat_sub(b[i], dot_range(c[i], fwd_subst(c, b, n), 0, i)),
{
    lemma_fwd_len(c, b, n);
    lemma_back_subst_row(c, fwd_subst(c, b, n), n, i);
    lemma_fwd_subst_row(c, b, n, i);
}

/// Factor a square matrix with partial pivoting and solve it against
/// `b` in one call, consuming the matrix.
pub fn solve(a: Mat, b: &Vector) -> (x: Vector)
    requires
        a.wf(),
        a.spec_rows() == a.spec_cols(),
        b@.len() == a.spec_rows(),
    ensures
        x@ == two_pass_solve(
            lup_mat(a@, b@.len() as int, b@.len() as int),
            crate::decompositions::lup::permute_rhs(
                lup_perm(a@, b@.len() as int, b@.len() as int),
                b@,
                b@.len() as int,
            ),
            b@.len() as int,
        ),
{
    let mut f = a.lup();
    f.solve(b)
}

/// The forward pass of the two-pass substitution: `y[i]` is `b[i]`
/// minus the accumulated lower-triangle terms of the rows before it.
pub(crate) fn forward_subst(c: &Mat, b: &Vector) -> (y: Vector)
    requires
        c.wf(),
        c.spec_rows() == c.spec_cols(),
        b@.len() == c.spec_rows(),
    ensures
        y@.len() == b@.len(),
        y@ == fwd_subst(c@, b@, b@.len() as int),
{
    let n = b.len();
    let mut y = Vector::new(n);
    proof {
        assert(y@ =~= fwd_subst(c@, b@, 0));
    }
    let mut i: usize = 0;
    while i < n
        invariant
            c.wf(),
            c.spec_rows() == c.spec_cols(),
            b@.len() == c.spec_rows(),
            n == b@.len(),
            i <= n,
            y@.len() == n,
            y@ == fwd_subst(c@, b@, i as int),
        decreases n - i,
    {
        let mut acc = Scalar::zero();
        let mut k: usize = 0;
        while k < i
            invariant
                c.wf(),
                c.spec_rows() == c.spec_cols(),
                b@.len() == c.spec_rows(),
                n == b@.len(),
                i < n,
                k <= i,
                y@.len() == n,
                y@ == fwd_subst(c@, b@, i as int),
                acc@ == dot_range(c@[i as int], y@, 0, k as int),
            decreases i - k,
        {
            acc = acc.add(c.get(i, k).mul(y.get(k)));
            k += 1;
        }
        let v = b.get(i).sub(acc);
        y.set(i, v);
        i += 1;
    }
    y
}

/// The backward pass of the two-pass substitution: `x[i]` is `y[i]`
/// minus the accumulated upper-triangle terms of the rows after it,
/// divided by the diagonal entry.
pub(crate) fn backward_subst(c: &Mat, y: &Vector) -> (x: Vector)
    requires
        c.wf(),
        c.spec_rows() == c.spec_cols(),
        y@.len() == c.spec_rows(),
    ensures
        x@.len() == y@.len(),
        x@ == back_subst(c@, y@, y@.len() as int, 0),
{
    let n = y.len();
    let mut x = Vector::new(n);
    let mut i: usize = 0;
    while i < n
        invariant
            y@.len() == n,
            i <= n,
            x@.len() == n,
            forall|k: int| 0 <= k < i ==> x@[k] == y@[k],
        decreases n - i,
    {
        x.set(i, y.get(i));
        i += 1;
    }
    proof {
        assert(x@ =~= back_subst(c@, y@, n as int, n as int));
    }
    let mut i: usize = n;
    while i > 0
        invariant
            c.wf(),
            c.spec_rows() == c.spec_cols(),
            y@.len() == c.spec_rows(),
            n == y@.len(),
            i <= n,
            x@.len() == n,
            x@ == back_subst(c@, y@, n as int, i as int),
        decreases i,
    {
        i -= 1;
        let mut acc = Scalar::zero();
        let mut k: usize = i + 1;
        while k < n
            invariant
                c.wf(),
                c.spec_rows() == c.spec_cols(),
                y@.len() == c.spec_rows(),
                n == y@.len(),
                i < n,
                i + 1 <= k <= n,
                x@.len() == n,
                x@ == back_subst(c@, y@, n as int, i as int + 1),
                acc@ == dot_range(c@[i as int], x@, i as int + 1, k as int),
            decreases n - k,
        {
            acc = acc.add(c.get(i, k).mul(x.get(k)));
            k += 1;
        }
        let v = x.get(i).sub(acc).div(c.get(i, i));
        x.set(i, v);
    }
    x
}

} // verus!
