//! Dense matrices of exact scalars over a flat buffer with a
//! row-stride/column-stride pair, so that transposition is a stride
//! swap in constant time and copies nothing.
//!
//! The view of a matrix is the grid `Seq<Seq<Rat>>` of its entries;
//! every operation is specified against that grid.

use vstd::prelude::*;
use vstd::arithmetic::div_mod::lemma_fundamental_div_mod_converse;
use crate::scalar::{Rat, Scalar, rat_eq, rat_one, rat_zero};
use crate::vector::{Vector, dot_prefix, rat_within};

verus! {

/// The grid with entry `(i, j)` replaced by `v`.
pub open spec fn upd2(m: Seq<Seq<Rat>>, i: int, j: int, v: Rat) -> Seq<Seq<Rat>> {
    m.update(i, m[i].update(j, v))
}

/// Column `j` of a grid, read top to bottom.
pub open spec fn col_of(m: Seq<Seq<Rat>>, j: int) -> Seq<Rat> {
    Seq::new(m.len(), |k: int| m[k][j])
}

/// Entry `(i, j)` of the identity grid.
pub open spec fn ident_entry(i: int, j: int) -> Rat {
    if i == j {
        rat_one()
    } else {
        rat_zero()
    }
}

/// Exact equality of two grids: same shape, every pair of entries
/// equal in value. Non-finite entries equal nothing, so two grids
/// holding one are never equal.
pub open spec fn mat_eq(a: Seq<Seq<Rat>>, b: Seq<Seq<Rat>>) -> bool {
    &&& a.len() == b.len()
    &&& forall|i: int| 0 <= i < a.len() ==> (#[trigger] a[i]).len() == b[i].len()
    &&& forall|i: int, j: int|
        0 <= i < a.len() && 0 <= j < a[i].len() ==> rat_eq(a[i][j], b[i][j])
}

/// Two grids of the same shape agree to tolerance `tol` in every
/// entry.
pub open spec fn mat_approx(a: Seq<Seq<Rat>>, b: Seq<Seq<Rat>>, tol: Rat) -> bool {
    forall|i: int, j: int|
        0 <= i < a.len() && 0 <= j < a[i].len() ==> rat_within(a[i][j], b[i][j], tol)
}

/// A dense matrix: a flat buffer addressed through a stride pair.
/// The strides are always those of a row-major layout or of its
/// transpose, so the buffer holds exactly `rows * cols` scalars.
#[derive(Clone, Debug)]
pub struct Mat {
    rows: usize,
    cols: usize,
    row_stride: usize,
    col_stride: usize,
    elements: Vec<Scalar>,
}

impl View for Mat {
    type V = Seq<Seq<Rat>>;

    closed spec fn view(&self) -> Seq<Seq<Rat>> {
        Seq::new(
            self.rows as nat,
            |i: int|
                Seq::new(
                    self.cols as nat,
                    |j: int| self.elements@[i * self.row_stride + j * self.col_stride]@,
                ),
        )
    }
}

impl Mat {
    /// Layout soundness: the buffer length matches the shape and the
    /// strides are the row-major pair or its transposed swap.
    pub closed spec fn inv(&self) -> bool {
        &&& self.elements@.len() == self.rows * self.cols
        &&& ((self.row_stride == self.cols && self.col_stride == 1) || (self.row_stride == 1
            && self.col_stride == self.rows))
    }

    pub closed spec fn spec_rows(&self) -> nat {
        self.rows as nat
    }

    pub closed spec fn spec_cols(&self) -> nat {
        self.cols as nat
    }

    /// A well-formed matrix: sound layout, and a view that is a
    /// `spec_rows() x spec_cols()` grid.
    pub open spec fn wf(&self) -> bool {
        &&& self.inv()
        &&& self.spec_rows() * self.spec_cols() <= usize::MAX
        &&& self@.len() == self.spec_rows()
        &&& forall|i: int| 0 <= i < self@.len() ==> (#[trigger] self@[i]).len() == self.spec_cols()
    }

    /// The buffer position of entry `(i, j)`.
    spec fn sidx(&self, i: int, j: int) -> int {
        i * self.row_stride + j * self.col_stride
    }

    /// The buffer is no larger than a `usize` can count.
    proof fn lemma_size(&self)
        requires
            self.inv(),
        ensures
            self.rows * self.cols == self.elements@.len(),
            self.elements@.len() <= usize::MAX,
    {
        broadcast use vstd::std_specs::vec::axiom_spec_len;

        assert(vstd::std_specs::vec::spec_vec_len(&self.elements) == self.elements@.len());
    }

    /// Entry positions stay inside the buffer, term by term.
    proof fn lemma_sidx_bound(&self, i: int, j: int)
        requires
            self.inv(),
            0 <= i < self.rows,
            0 <= j < self.cols,
        ensures
            0 <= self.sidx(i, j) < self.elements@.len(),
            0 <= i * self.row_stride <= self.sidx(i, j),
            0 <= j * self.col_stride <= self.sidx(i, j),
            self.elements@.len() <= usize::MAX,
    {
        self.lemma_size();
        let r = self.rows as int;
        let c = self.cols as int;
        if self.row_stride == self.cols && self.col_stride == 1 {
            assert(0 <= i * c && 0 <= j * 1 && i * c + j * 1 < r * c) by (nonlinear_arith)
                requires
                    0 <= i < r,
                    0 <= j < c,
            ;
        } else {
            assert(0 <= i * 1 && 0 <= j * r && i * 1 + j * r < r * c) by (nonlinear_arith)
                requires
                    0 <= i < r,
                    0 <= j < c,
            ;
        }
    }

    /// Distinct entries live at distinct buffer positions.
    proof fn lemma_sidx_inj(&self, i1: int, j1: int, i2: int, j2: int)
        requires
            self.inv(),
            0 <= i1 < self.rows,
            0 <= j1 < self.cols,
            0 <= i2 < self.rows,
            0 <= j2 < self.cols,
            self.sidx(i1, j1) == self.sidx(i2, j2),
        ensures
            i1 == i2,
            j1 == j2,
    {
        let r = self.rows as int;
        let c = self.cols as int;
        if self.row_stride == self.cols && self.col_stride == 1 {
            let x = i1 * c + j1;
            assert(self.sidx(i1, j1) == x);
            assert(self.sidx(i2, j2) == i2 * c + j2);
            lemma_fundamental_div_mod_converse(x, c, i1, j1);
            lemma_fundamental_div_mod_converse(x, c, i2, j2);
        } else {
            let x = i1 + j1 * r;
            assert(self.sidx(i1, j1) == x);
            assert(self.sidx(i2, j2) == i2 + j2 * r);
            lemma_fundamental_div_mod_converse(x, r, j1, i1);
            lemma_fundamental_div_mod_converse(x, r, j2, i2);
        }
    }

    /// A matrix of zeros with the given `(rows, cols)` shape.
    pub fn new(shape: (usize, usize)) -> (m: Mat)
        requires
            shape.0 * shape.1 <= usize::MAX,
        ensures
            m.wf(),
            m.spec_rows() == shape.0,
            m.spec_cols() == shape.1,
            forall|i: int, j: int|
                0 <= i < shape.0 && 0 <= j < shape.1 ==> m@[i][j] == rat_zero(),
    {
        let (rows, cols) = shape;
        let n = rows * cols;
        let mut elements: Vec<Scalar> = Vec::new();
        while elements.len() < n
            invariant
                elements@.len() <= n,
                forall|k: int| 0 <= k < elements@.len() ==> elements@[k]@ == rat_zero(),
            decreases n - elements@.len(),
        {
            elements.push(Scalar::zero());
        }
        let m = Mat { rows, cols, row_stride: cols, col_stride: 1, elements };
        proof {
            assert forall|i: int, j: int|
                0 <= i < shape.0 && 0 <= j < shape.1 implies m@[i][j] == rat_zero() by {
                m.lemma_sidx_bound(i, j);
            }
        }
        m
    }

    /// Wrap an owned buffer as a `(rows, cols)` matrix in row-major
    /// order. The buffer must fill the shape exactly.
    pub fn from_vec(shape: (usize, usize), vec: Vec<Scalar>) -> (m: Mat)
        requires
            shape.0 * shape.1 == vec@.len(),
        ensures
            m.wf(),
            m.spec_rows() == shape.0,
            m.spec_cols() == shape.1,
            forall|i: int, j: int|
                0 <= i < shape.0 && 0 <= j < shape.1 ==> m@[i][j] == vec@[i * shape.1 + j]@,
    {
        let (rows, cols) = shape;
        let m = Mat { rows, cols, row_stride: cols, col_stride: 1, elements: vec };
        proof {
            m.lemma_size();
            assert forall|i: int, j: int|
                0 <= i < shape.0 && 0 <= j < shape.1 implies m@[i][j] == vec@[i * shape.1 + j]@
            by {
                m.lemma_sidx_bound(i, j);
            }
        }
        m
    }

    /// The `(rows, cols)` pair.
    pub fn shape(&self) -> (s: (usize, usize))
        ensures
            s.0 == self.spec_rows(),
            s.1 == self.spec_cols(),
    {
        (self.rows, self.cols)
    }

    pub fn rows(&self) -> (r: usize)
        ensures
            r == self.spec_rows(),
    {
        self.rows
    }

    pub fn cols(&self) -> (c: usize)
        ensures
            c == self.spec_cols(),
    {
        self.cols
    }

    /// Read the entry at `(i, j)`.
    pub fn get(&self, i: usize, j: usize) -> (s: Scalar)
        requires
            self.wf(),
            i < self.spec_rows(),
            j < self.spec_cols(),
        ensures
            s@ == self@[i as int][j as int],
    {
        proof {
            self.lemma_sidx_bound(i as int, j as int);
        }
        self.elements[i * self.row_stride + j * self.col_stride]
    }

    /// Replace the entry at `(i, j)`.
    pub fn set(&mut self, i: usize, j: usize, value: Scalar)
        requires
            old(self).wf(),
            i < old(self).spec_rows(),
            j < old(self).spec_cols(),
        ensures
            final(self).wf(),
            final(self).spec_rows() == old(self).spec_rows(),
            final(self).spec_cols() == old(self).spec_cols(),
            final(self)@ == upd2(old(self)@, i as int, j as int, value@),
    {
        proof {
            self.lemma_sidx_bound(i as int, j as int);
        }
        let pos = i * self.row_stride + j * self.col_stride;
        self.elements.set(pos, value);
        proof {
            let m0 = *old(self);
            assert forall|x: int, y: int|
                0 <= x < self.rows && 0 <= y < self.cols implies self@[x][y] == upd2(
                m0@,
                i as int,
                j as int,
                value@,
            )[x][y] by {
                m0.lemma_sidx_bound(x, y);
                if m0.sidx(x, y) == m0.sidx(i as int, j as int) {
                    m0.lemma_sidx_inj(x, y, i as int, j as int);
                }
            }
            assert(self@ =~~= upd2(m0@, i as int, j as int, value@));
        }
    }

    /// Swap rows `row1` and `row2` in place.
    pub fn swap_rows(&mut self, row1: usize, row2: usize)
        requires
            old(self).wf(),
            row1 < old(self).spec_rows(),
            row2 < old(self).spec_rows(),
        ensures
            final(self).wf(),
            final(self).spec_rows() == old(self).spec_rows(),
            final(self).spec_cols() == old(self).spec_cols(),
            final(self)@ == old(self)@.update(row1 as int, old(self)@[row2 as int]).update(
                row2 as int,
                old(self)@[row1 as int],
            ),
    {
        let ghost r1 = row1 as int;
        let ghost r2 = row2 as int;
        let ghost m0 = *self;
        let cols = self.cols;
        let mut col: usize = 0;
        while col < cols
            invariant
                self.wf(),
                self.spec_rows() == m0.spec_rows(),
                self.spec_cols() == m0.spec_cols(),
                cols == m0.spec_cols(),
                row1 < m0.spec_rows(),
                row2 < m0.spec_rows(),
                r1 == row1 as int,
                r2 == row2 as int,
                col <= cols,
                forall|x: int, y: int|
                    0 <= x < m0@.len() && 0 <= y < cols && !(x == r1 && y < col) && !(x == r2
                        && y < col) ==> self@[x][y] == m0@[x][y],
                forall|y: int| 0 <= y < col ==> self@[r1][y] == m0@[r2][y],
                forall|y: int| 0 <= y < col ==> self@[r2][y] == m0@[r1][y],
            decreases cols - col,
        {
            let temp = self.get(row1, col);
            let other = self.get(row2, col);
            let ghost before = *self;
            self.set(row1, col, other);
            self.set(row2, col, temp);
            proof {
                assert forall|x: int, y: int|
                    0 <= x < m0@.len() && 0 <= y < cols implies self@[x][y] == (if x == r2 && y
                    == col {
                    temp@
                } else if x == r1 && y == col {
                    other@
                } else {
                    before@[x][y]
                }) by {}
            }
            col += 1;
        }
        proof {
            assert(self@ =~~= m0@.update(r1, m0@[r2]).update(r2, m0@[r1]));
        }
    }

    /// Transpose in place: a stride swap, no entry moves.
    pub fn transpose(&mut self)
        ensures
            old(self).wf() ==> final(self).wf(),
            final(self).spec_rows() == old(self).spec_cols(),
            final(self).spec_cols() == old(self).spec_rows(),
            forall|i: int, j: int|
                0 <= i < old(self).spec_cols() && 0 <= j < old(self).spec_rows()
                    ==> final(self)@[i][j] == old(self)@[j][i],
    {
        let mut temp = self.rows;
        self.rows = self.cols;
        self.cols = temp;

        temp = self.row_stride;
        self.row_stride = self.col_stride;
        self.col_stride = temp;
        proof {
            let m0 = *old(self);
            if m0.wf() {
                assert(m0.rows * m0.cols == self.rows * self.cols) by (nonlinear_arith)
                    requires
                        self.rows == m0.cols,
                        self.cols == m0.rows,
                ;
            }
        }
    }

    /// Transpose, consuming and returning the matrix.
    pub fn transpose_self(self) -> (m: Mat)
        ensures
            self.wf() ==> m.wf(),
            m.spec_rows() == self.spec_cols(),
            m.spec_cols() == self.spec_rows(),
            forall|i: int, j: int|
                0 <= i < self.spec_cols() && 0 <= j < self.spec_rows() ==> m@[i][j] == self@[j][i],
    {
        let mut m = self;
        m.transpose();
        m
    }

    /// The transpose as a fresh matrix; the receiver is untouched.
    pub fn transposed(&self) -> (m: Mat)
        requires
            self.wf(),
        ensures
            m.wf(),
            m.spec_rows() == self.spec_cols(),
            m.spec_cols() == self.spec_rows(),
            forall|i: int, j: int|
                0 <= i < self.spec_cols() && 0 <= j < self.spec_rows() ==> m@[i][j] == self@[j][i],
    {
        let rows = self.rows;
        let cols = self.cols;
        proof {
            self.lemma_size();
        }
        let mut out = Mat::new((rows, cols));
        let mut i: usize = 0;
        while i < rows
            invariant
                self.wf(),
                rows == self.spec_rows(),
                cols == self.spec_cols(),
                out.wf(),
                out.spec_rows() == rows,
                out.spec_cols() == cols,
                i <= rows,
                forall|x: int, y: int|
                    0 <= x < i && 0 <= y < cols ==> out@[x][y] == self@[x][y],
            decreases rows - i,
        {
            let mut j: usize = 0;
            while j < cols
                invariant
                    self.wf(),
                    rows == self.spec_rows(),
                    cols == self.spec_cols(),
                    out.wf(),
                    out.spec_rows() == rows,
                    out.spec_cols() == cols,
                    i < rows,
                    j <= cols,
                    forall|x: int, y: int|
                        0 <= x < i && 0 <= y < cols ==> out@[x][y] == self@[x][y],
                    forall|y: int| 0 <= y < j ==> out@[i as int][y] == self@[i as int][y],
                decreases cols - j,
            {
                let v = self.get(i, j);
                out.set(i, j, v);
                j += 1;
            }
            i += 1;
        }
        out.transpose_self()
    }

    /// The `size x size` identity matrix.
    pub fn eye(size: usize) -> (m: Mat)
        requires
            size * size <= usize::MAX,
        ensures
            m.wf(),
            m.spec_rows() == size,
            m.spec_cols() == size,
            forall|i: int, j: int|
                0 <= i < size && 0 <= j < size ==> m@[i][j] == ident_entry(i, j),
    {
        let mut m = Mat::new((size, size));
        let mut r: usize = 0;
        while r < size
            invariant
                m.wf(),
                m.spec_rows() == size,
                m.spec_cols() == size,
                r <= size,
                forall|i: int, j: int|
                    0 <= i < size && 0 <= j < size && (i >= r || i != j) ==> m@[i][j]
                        == rat_zero(),
                forall|i: int| 0 <= i < r ==> m@[i][i] == rat_one(),
            decreases size - r,
        {
            m.set(r, r, Scalar::one());
            r += 1;
        }
        m
    }

    /// The matrix product: entry `(i, j)` accumulates row `i` of
    /// `self` against column `j` of `rhs`, left to right.
    pub fn matmul(&self, rhs: &Mat) -> (out: Mat)
        requires
            self.wf(),
            rhs.wf(),
            self.spec_cols() == rhs.spec_rows(),
            self.spec_rows() * rhs.spec_cols() <= usize::MAX,
        ensures
            out.wf(),
            out.spec_rows() == self.spec_rows(),
            out.spec_cols() == rhs.spec_cols(),
            forall|i: int, j: int|
                0 <= i < self.spec_rows() && 0 <= j < rhs.spec_cols() ==> out@[i][j]
                    == dot_prefix(self@[i], col_of(rhs@, j), rhs@.len() as int),
    {
        let rows = self.rows;
        let cols = rhs.cols;
        let inner = self.cols;
        let mut out = Mat::new((rows, cols));
        let mut i: usize = 0;
        while i < rows
            invariant
                self.wf(),
                rhs.wf(),
                self.spec_cols() == rhs.spec_rows(),
                rows == self.spec_rows(),
                cols == rhs.spec_cols(),
                inner == self.spec_cols(),
                out.wf(),
                out.spec_rows() == rows,
                out.spec_cols() == cols,
                i <= rows,
                forall|x: int, y: int|
                    0 <= x < i && 0 <= y < cols ==> out@[x][y] == dot_prefix(
                        self@[x],
                        col_of(rhs@, y),
                        rhs@.len() as int,
                    ),
            decreases rows - i,
        {
            let mut j: usize = 0;
            while j < cols
                invariant
                    self.wf(),
                    rhs.wf(),
                    self.spec_cols() == rhs.spec_rows(),
                    rows == self.spec_rows(),
                    cols == rhs.spec_cols(),
                    inner == self.spec_cols(),
                    out.wf(),
                    out.spec_rows() == rows,
                    out.spec_cols() == cols,
                    i < rows,
                    j <= cols,
                    forall|x: int, y: int|
                        0 <= x < i && 0 <= y < cols ==> out@[x][y] == dot_prefix(
                            self@[x],
                            col_of(rhs@, y),
                            rhs@.len() as int,
                        ),
                    forall|y: int|
                        0 <= y < j ==> out@[i as int][y] == dot_prefix(
                            self@[i as int],
                            col_of(rhs@, y),
                            rhs@.len() as int,
                        ),
                decreases cols - j,
            {
                let mut acc = Scalar::zero();
                let mut k: usize = 0;
                while k < inner
                    invariant
                        self.wf(),
                        rhs.wf(),
                        self.spec_cols() == rhs.spec_rows(),
                        rows == self.spec_rows(),
                        cols == rhs.spec_cols(),
                        inner == self.spec_cols(),
                        i < rows,
                        j < cols,
                        k <= inner,
                        acc@ == dot_prefix(self@[i as int], col_of(rhs@, j as int), k as int),
                    decreases inner - k,
                {
                    acc = acc.add(self.get(i, k).mul(rhs.get(k, j)));
                    k += 1;
                }
                out.set(i, j, acc);
                j += 1;
            }
            i += 1;
        }
        out
    }

    /// The matrix-vector product: entry `i` accumulates row `i` of
    /// `self` against `rhs`, left to right.
    pub fn vecmul(&self, rhs: &Vector) -> (out: Vector)
        requires
            self.wf(),
            self.spec_cols() == rhs@.len(),
        ensures
            out@.len() == self.spec_rows(),
            forall|i: int|
                0 <= i < self.spec_rows() ==> out@[i] == dot_prefix(
                    self@[i],
                    rhs@,
                    rhs@.len() as int,
                ),
    {
        let rows = self.rows;
        let cols = self.cols;
        let mut out = Vector::new(rows);
        let mut i: usize = 0;
        while i < rows
            invariant
                self.wf(),
                self.spec_cols() == rhs@.len(),
                rows == self.spec_rows(),
                cols == self.spec_cols(),
                out@.len() == rows,
                i <= rows,
                forall|x: int|
                    0 <= x < i ==> out@[x] == dot_prefix(self@[x], rhs@, rhs@.len() as int),
            decreases rows - i,
        {
            let mut acc = Scalar::zero();
            let mut k: usize = 0;
            while k < cols
                invariant
                    self.wf(),
                    self.spec_cols() == rhs@.len(),
                    rows == self.spec_rows(),
                    cols == self.spec_cols(),
                    i < rows,
                    k <= cols,
                    acc@ == dot_prefix(self@[i as int], rhs@, k as int),
                decreases cols - k,
            {
                acc = acc.add(self.get(i, k).mul(rhs.get(k)));
                k += 1;
            }
            out.set(i, acc);
            i += 1;
        }
        out
    }

    /// Do the two matrices agree to tolerance `tol` in every entry?
    /// The shapes must match.
    pub fn approximately(&self, other: &Mat, tol: Scalar) -> (r: bool)
        requires
            self.wf(),
            other.wf(),
            self.spec_rows() == other.spec_rows(),
            self.spec_cols() == other.spec_cols(),
        ensures
            r == mat_approx(self@, other@, tol@),
    {
        let rows = self.rows;
        let cols = self.cols;
        let mut i: usize = 0;
        while i < rows
            invariant
                self.wf(),
                other.wf(),
                self.spec_rows() == other.spec_rows(),
                self.spec_cols() == other.spec_cols(),
                rows == self.spec_rows(),
                cols == self.spec_cols(),
                i <= rows,
                forall|x: int, y: int|
                    0 <= x < i && 0 <= y < cols ==> rat_within(self@[x][y], other@[x][y], tol@),
            decreases rows - i,
        {
            let mut j: usize = 0;
            while j < cols
                invariant
                    self.wf(),
                    other.wf(),
                    self.spec_rows() == other.spec_rows(),
                    self.spec_cols() == other.spec_cols(),
                    rows == self.spec_rows(),
                    cols == self.spec_cols(),
                    i < rows,
                    j <= cols,
                    forall|x: int, y: int|
                        0 <= x < i && 0 <= y < cols ==> rat_within(
                            self@[x][y],
                            other@[x][y],
                            tol@,
                        ),
                    forall|y: int|
                        0 <= y < j ==> rat_within(self@[i as int][y], other@[i as int][y], tol@),
                decreases cols - j,
            {
                if !self.get(i, j).sub(other.get(i, j)).abs().le(tol) {
                    return false;
                }
                j += 1;
            }
            i += 1;
        }
        true
    }

    /// The entries, copied out in row-major order.
    pub fn iter(&self) -> (r: Vec<Scalar>)
        requires
            self.wf(),
        ensures
            r@.len() == self.spec_rows() * self.spec_cols(),
            forall|i: int, j: int|
                0 <= i < self.spec_rows() && 0 <= j < self.spec_cols() ==> r@[i
                    * self.spec_cols() + j]@ == self@[i][j],
    {
        let rows = self.rows;
        let cols = self.cols;
        proof {
            self.lemma_size();
        }
        let mut out: Vec<Scalar> = Vec::new();
        let mut i: usize = 0;
        while i < rows
            invariant
                self.wf(),
                rows == self.spec_rows(),
                cols == self.spec_cols(),
                i <= rows,
                out@.len() == i * cols,
                i * cols <= rows * cols <= usize::MAX,
                forall|x: int, y: int|
                    0 <= x < i && 0 <= y < cols ==> out@[x * cols + y]@ == self@[x][y],
            decreases rows - i,
        {
            let mut j: usize = 0;
            while j < cols
                invariant
                    self.wf(),
                    rows == self.spec_rows(),
                    cols == self.spec_cols(),
                    i < rows,
                    j <= cols,
                    out@.len() == i * cols + j,
                    i * cols + j <= rows * cols <= usize::MAX,
                    forall|x: int, y: int|
                        0 <= x < i && 0 <= y < cols ==> out@[x * cols + y]@ == self@[x][y],
                    forall|y: int| 0 <= y < j ==> out@[i as int * cols + y]@ == self@[i as int][y],
                decreases cols - j,
            {
                proof {
                    assert((i + 1) * cols <= rows * cols && i * cols + j + 1 <= (i + 1) * cols)
                        by (nonlinear_arith)
                        requires
                            0 <= i < rows,
                            0 <= j < cols,
                    ;
                }
                let ghost prev = out@;
                out.push(self.get(i, j));
                proof {
                    assert(out@[i as int * cols + j as int]@ == self@[i as int][j as int]);
                    assert forall|x: int, y: int|
                        0 <= x < i && 0 <= y < cols implies out@[x * cols + y]@ == self@[x][y] by {
                        assert(0 <= x * cols + y < i * cols) by (nonlinear_arith)
                            requires
                                0 <= x < i,
                                0 <= y < cols,
                        ;
                        assert(out@[x * cols + y] == prev[x * cols + y]);
                    }
                }
                j += 1;
            }
            proof {
                assert((i + 1) * cols == i * cols + cols) by (nonlinear_arith);
            }
            i += 1;
        }
        proof {
            assert(rows * cols == self.spec_rows() * self.spec_cols());
        }
        out
    }

    /// Copy out the block with rows `rmin..rmax` and columns
    /// `cmin..cmax`. An empty or out-of-range request is rejected.
    pub fn submat(&self, rmin: usize, rmax: usize, cmin: usize, cmax: usize) -> (r: Result<
        Mat,
        &'static str,
    >)
        requires
            self.wf(),
        ensures
            r is Err <==> (rmin > rmax || cmin > cmax || rmax > self.spec_rows() || cmax
                > self.spec_cols()),
            r matches Ok(m) ==> {
                &&& m.wf()
                &&& m.spec_rows() == rmax - rmin
                &&& m.spec_cols() == cmax - cmin
                &&& forall|i: int, j: int|
                    0 <= i < m.spec_rows() && 0 <= j < m.spec_cols() ==> m@[i][j] == self@[rmin
                        + i][cmin + j]
            },
    {
        if (rmin > rmax) || (cmin > cmax) || (rmax > self.rows) || (cmax > self.cols) {
            return Err("Invalid submatrix.");
        }

        let rows = rmax - rmin;
        let cols = cmax - cmin;
        proof {
            self.lemma_size();
            assert(rows * cols <= self.spec_rows() * self.spec_cols()) by (nonlinear_arith)
                requires
                    0 <= rows <= self.spec_rows(),
                    0 <= cols <= self.spec_cols(),
            ;
        }
        let mut sub = Mat::new((rows, cols));
        let mut row: usize = 0;
        while row < rows
            invariant
                self.wf(),
                rows <= self.spec_rows() - rmin,
                cols <= self.spec_cols() - cmin,
                sub.wf(),
                sub.spec_rows() == rows,
                sub.spec_cols() == cols,
                row <= rows,
                forall|x: int, y: int|
                    0 <= x < row && 0 <= y < cols ==> sub@[x][y] == self@[rmin + x][cmin + y],
            decreases rows - row,
        {
            let mut col: usize = 0;
            while col < cols
                invariant
                    self.wf(),
                    rows <= self.spec_rows() - rmin,
                    cols <= self.spec_cols() - cmin,
                    sub.wf(),
                    sub.spec_rows() == rows,
                    sub.spec_cols() == cols,
                    row < rows,
                    col <= cols,
                    forall|x: int, y: int|
                        0 <= x < row && 0 <= y < cols ==> sub@[x][y] == self@[rmin + x][cmin + y],
                    forall|y: int|
                        0 <= y < col ==> sub@[row as int][y] == self@[rmin + row as int][cmin + y],
                decreases cols - col,
            {
                let v = self.get(row + rmin, col + cmin);
                sub.set(row, col, v);
                col += 1;
            }
            row += 1;
        }
        Ok(sub)
    }

    /// An iterator over the diagonal, from the top-left corner to the
    /// short side's end.
    pub fn iter_trace(&self) -> (it: TraceIter)
        requires
            self.wf(),
        ensures
            it.wf(),
            it.spec_matrix() == *self,
            it.spec_current() == 0,
            it.spec_min_dim() == if self.spec_rows() <= self.spec_cols() {
                self.spec_rows()
            } else {
                self.spec_cols()
            },
    {
        let n = if self.rows <= self.cols {
            self.rows
        } else {
            self.cols
        };
        TraceIter { matrix: self, current: 0, min_dim: n }
    }

    /// An iterator over the block with rows `rmin..rmax` and columns
    /// `cmin..cmax`, in row-major order. An empty or out-of-range
    /// request is rejected.
    pub fn iter_submat(&self, rmin: usize, rmax: usize, cmin: usize, cmax: usize) -> (r: Result<
        SubMatIter,
        &'static str,
    >)
        requires
            self.wf(),
        ensures
            r is Err <==> (rmin > rmax || cmin > cmax || rmax > self.spec_rows() || cmax
                > self.spec_cols()),
            r matches Ok(it) ==> {
                &&& it.wf()
                &&& it.spec_matrix() == *self
                &&& it.spec_rmax() == rmax
                &&& it.spec_cmin() == cmin
                &&& it.spec_cmax() == cmax
                &&& it.spec_row() == rmin
                &&& it.spec_col() == cmin
            },
    {
        if (rmin > rmax) || (cmin > cmax) || (rmax > self.rows) || (cmax > self.cols) {
            return Err("Invalid submatrix.");
        }
        Ok(SubMatIter { matrix: self, rmax, cmin, cmax, current_row: rmin, current_col: cmin })
    }
}

impl Mat {
    /// Exact equality: same shape and every entry equal in value.
    pub fn equals(&self, other: &Mat) -> (r: bool)
        requires
            self.wf(),
            other.wf(),
        ensures
            r == (self.spec_rows() == other.spec_rows() && self.spec_cols()
                == other.spec_cols() && mat_eq(self@, other@)),
    {
        if self.rows != other.rows || self.cols != other.cols {
            return false;
        }
        let rows = self.rows;
        let cols = self.cols;
        let mut i: usize = 0;
        while i < rows
            invariant
                self.wf(),
                other.wf(),
                self.spec_rows() == other.spec_rows(),
                self.spec_cols() == other.spec_cols(),
                rows == self.spec_rows(),
                cols == self.spec_cols(),
                i <= rows,
                forall|x: int, y: int|
                    0 <= x < i && 0 <= y < cols ==> rat_eq(self@[x][y], other@[x][y]),
            decreases rows - i,
        {
            let mut j: usize = 0;
            while j < cols
                invariant
                    self.wf(),
                    other.wf(),
                    self.spec_rows() == other.spec_rows(),
                    self.spec_cols() == other.spec_cols(),
                    rows == self.spec_rows(),
                    cols == self.spec_cols(),
                    i < rows,
                    j <= cols,
                    forall|x: int, y: int|
                        0 <= x < i && 0 <= y < cols ==> rat_eq(self@[x][y], other@[x][y]),
                    forall|y: int| 0 <= y < j ==> rat_eq(self@[i as int][y], other@[i as int][y]),
                decreases cols - j,
            {
                if !self.get(i, j).equals(other.get(i, j)) {
                    return false;
                }
                j += 1;
            }
            i += 1;
        }
        true
    }
}

/// A cursor over the diagonal of a matrix.
pub struct TraceIter<'a> {
    pub matrix: &'a Mat,
    current: usize,
    min_dim: usize,
}

impl<'a> TraceIter<'a> {
    pub closed spec fn spec_matrix(&self) -> Mat {
        *self.matrix
    }

    pub closed spec fn spec_current(&self) -> nat {
        self.current as nat
    }

    pub closed spec fn spec_min_dim(&self) -> nat {
        self.min_dim as nat
    }

    pub closed spec fn wf(&self) -> bool {
        &&& self.matrix.wf()
        &&& self.min_dim <= self.matrix.spec_rows()
        &&& self.min_dim <= self.matrix.spec_cols()
    }

    /// The next diagonal entry, or nothing once the short side is
    /// exhausted.
    pub fn next(&mut self) -> (r: Option<Scalar>)
        requires
            old(self).wf(),
        ensures
            final(self).wf(),
            final(self).spec_matrix() == old(self).spec_matrix(),
            final(self).spec_min_dim() == old(self).spec_min_dim(),
            old(self).spec_current() < old(self).spec_min_dim() ==> {
                &&& r matches Some(s)
                &&& s@ == old(self).spec_matrix()@[old(self).spec_current() as int][old(self).spec_current() as int]
                &&& final(self).spec_current() == old(self).spec_current() + 1
            },
            old(self).spec_current() >= old(self).spec_min_dim() ==> r is None && final(self).spec_current() == old(self).spec_current(),
    {
        if self.current >= self.min_dim {
            return None;
        }

        let elem = Some(self.matrix.get(self.current, self.current));
        self.current += 1;
        elem
    }
}

/// A cursor over a rectangular block of a matrix, read in row-major
/// order.
pub struct SubMatIter<'a> {
    pub matrix: &'a Mat,
    rmax: usize,
    cmin: usize,
    cmax: usize,
    current_row: usize,
    current_col: usize,
}

impl<'a> SubMatIter<'a> {
    pub closed spec fn spec_matrix(&self) -> Mat {
        *self.matrix
    }

    pub closed spec fn spec_rmax(&self) -> nat {
        self.rmax as nat
    }

    pub closed spec fn spec_cmin(&self) -> nat {
        self.cmin as nat
    }

    pub closed spec fn spec_cmax(&self) -> nat {
        self.cmax as nat
    }

    pub closed spec fn spec_row(&self) -> nat {
        self.current_row as nat
    }

    pub closed spec fn spec_col(&self) -> nat {
        self.current_col as nat
    }

    pub closed spec fn wf(&self) -> bool {
        &&& self.matrix.wf()
        &&& self.rmax <= self.matrix.spec_rows()
        &&& self.cmax <= self.matrix.spec_cols()
        &&& self.cmin <= self.current_col
        &&& (self.current_col < self.cmax || self.current_col == self.cmin)
    }

    /// The next entry of the block, or nothing once every row of the
    /// block has been read.
    pub fn next(&mut self) -> (r: Option<Scalar>)
        requires
            old(self).wf(),
        ensures
            final(self).wf(),
            final(self).spec_matrix() == old(self).spec_matrix(),
            final(self).spec_rmax() == old(self).spec_rmax(),
            final(self).spec_cmin() == old(self).spec_cmin(),
            final(self).spec_cmax() == old(self).spec_cmax(),
            (old(self).spec_cmin() < old(self).spec_cmax() && old(self).spec_row() < old(self).spec_rmax()) ==> {
                &&& r matches Some(s)
                &&& s@ == old(self).spec_matrix()@[old(self).spec_row() as int][old(self).spec_col() as int]
                &&& (if old(self).spec_col() + 1 < old(self).spec_cmax() {
                    final(self).spec_row() == old(self).spec_row() && final(self).spec_col()
                        == old(self).spec_col() + 1
                } else {
                    final(self).spec_row() == old(self).spec_row() + 1 && final(self).spec_col()
                        == old(self).spec_cmin()
                })
            },
            (old(self).spec_cmin() >= old(self).spec_cmax() || old(self).spec_row() >= old(self).spec_rmax()) ==> r is None && final(self).spec_row() == old(self).spec_row()
                && final(self).spec_col() == old(self).spec_col(),
    {
        if self.cmin >= self.cmax || self.current_row >= self.rmax {
            return None;
        }

        let elem = Some(self.matrix.get(self.current_row, self.current_col));

        self.current_col += 1;
        if self.current_col >= self.cmax {
            self.current_row += 1;
            self.current_col = self.cmin;
        }
        elem
    }
}

} // verus!
