//! Dense vectors of exact scalars, with the accumulation routines the
//! factorization engines consume, each stated against a `Seq<Rat>`
//! view.

use vstd::prelude::*;
use crate::scalar::{
    Rat, Scalar, rat_abs, rat_add, rat_div, rat_le, rat_mul, rat_sub, rat_zero,
};

verus! {

/// Left-to-right accumulation of `a[0]*b[0] + ... + a[n-1]*b[n-1]`,
/// in the order the executable loops add the terms.
pub open spec fn dot_prefix(a: Seq<Rat>, b: Seq<Rat>, n: int) -> Rat
    decreases n,
{
    if n <= 0 {
        rat_zero()
    } else {
        rat_add(dot_prefix(a, b, n - 1), rat_mul(a[n - 1], b[n - 1]))
    }
}

/// Left-to-right accumulation of `a[0] + ... + a[n-1]`.
pub open spec fn sum_prefix(a: Seq<Rat>, n: int) -> Rat
    decreases n,
{
    if n <= 0 {
        rat_zero()
    } else {
        rat_add(sum_prefix(a, n - 1), a[n - 1])
    }
}

/// A prefix accumulation reads nothing past `n`: sequences that agree
/// below `n` accumulate to the same value.
pub proof fn lemma_dot_prefix_congruence(
    x1: Seq<Rat>,
    y1: Seq<Rat>,
    x2: Seq<Rat>,
    y2: Seq<Rat>,
    n: int,
)
    requires
        forall|k: int| 0 <= k < n ==> x1[k] == x2[k] && y1[k] == y2[k],
    ensures
        dot_prefix(x1, y1, n) == dot_prefix(x2, y2, n),
    decreases n,
{
    if n > 0 {
        lemma_dot_prefix_congruence(x1, y1, x2, y2, n - 1);
    }
}

/// Entrywise closeness: `|a - b| <= tol`, false when either side is
/// non-finite.
pub open spec fn rat_within(a: Rat, b: Rat, tol: Rat) -> bool {
    rat_le(rat_abs(rat_sub(a, b)), tol)
}

/// Two vectors agree to tolerance `tol` in every entry.
pub open spec fn vec_approx(a: Seq<Rat>, b: Seq<Rat>, tol: Rat) -> bool {
    a.len() == b.len() && (forall|i: int| 0 <= i < a.len() ==> rat_within(a[i], b[i], tol))
}

/// A dense vector of exact scalars.
#[derive(Clone, Debug)]
pub struct Vector {
    elements: Vec<Scalar>,
}

impl View for Vector {
    type V = Seq<Rat>;

    closed spec fn view(&self) -> Seq<Rat> {
        Seq::new(self.elements@.len(), |i: int| self.elements@[i]@)
    }
}

impl Vector {
    /// A vector of `size` zeros.
    pub fn new(size: usize) -> (v: Vector)
        ensures
            v@.len() == size,
            forall|i: int| 0 <= i < size ==> v@[i] == rat_zero(),
    {
        let mut elements: Vec<Scalar> = Vec::new();
        while elements.len() < size
            invariant
                elements@.len() <= size,
                forall|i: int| 0 <= i < elements@.len() ==> elements@[i]@ == rat_zero(),
            decreases size - elements@.len(),
        {
            elements.push(Scalar::zero());
        }
        Vector { elements }
    }

    /// Wrap an owned buffer of scalars.
    pub fn from_vec(vec: Vec<Scalar>) -> (v: Vector)
        ensures
            v@.len() == vec@.len(),
            forall|i: int| 0 <= i < vec@.len() ==> v@[i] == vec@[i]@,
    {
        Vector { elements: vec }
    }

    pub fn len(&self) -> (n: usize)
        ensures
            n == self@.len(),
    {
        self.elements.len()
    }

    /// Read the entry at `index`.
    pub fn get(&self, index: usize) -> (s: Scalar)
        requires
            index < self@.len(),
        ensures
            s@ == self@[index as int],
    {
        self.elements[index]
    }

    /// Replace the entry at `index`.
    pub fn set(&mut self, index: usize, value: Scalar)
        requires
            index < old(self)@.len(),
        ensures
            final(self)@ == old(self)@.update(index as int, value@),
    {
        self.elements.set(index, value);
        proof {
            assert(self@ =~= old(self)@.update(index as int, value@));
        }
    }

    /// The entries, copied out in order.
    pub fn iter(&self) -> (r: Vec<Scalar>)
        ensures
            r@.len() == self@.len(),
            forall|i: int| 0 <= i < self@.len() ==> r@[i]@ == self@[i],
    {
        let n = self.elements.len();
        let mut out: Vec<Scalar> = Vec::new();
        let mut i: usize = 0;
        while i < n
            invariant
                n == self@.len(),
                i <= n,
                out@.len() == i,
                forall|j: int| 0 <= j < i ==> out@[j]@ == self@[j],
            decreases n - i,
        {
            out.push(self.elements[i]);
            i += 1;
        }
        out
    }

    /// The dot product, accumulated left to right.
    pub fn dot(&self, other: &Vector) -> (r: Scalar)
        requires
            self@.len() == other@.len(),
        ensures
            r@ == dot_prefix(self@, other@, self@.len() as int),
    {
        let n = self.elements.len();
        let mut res = Scalar::zero();
        let mut i: usize = 0;
        while i < n
            invariant
                n == self@.len(),
                self@.len() == other@.len(),
                i <= n,
                res@ == dot_prefix(self@, other@, i as int),
            decreases n - i,
        {
            res = res.add(self.get(i).mul(other.get(i)));
            i += 1;
        }
        res
    }

    /// Sum of the squares of the entries.
    pub fn mag_sq(&self) -> (r: Scalar)
        ensures
            r@ == dot_prefix(self@, self@, self@.len() as int),
    {
        let n = self.elements.len();
        let mut res = Scalar::zero();
        let mut i: usize = 0;
        while i < n
            invariant
                n == self@.len(),
                i <= n,
                res@ == dot_prefix(self@, self@, i as int),
            decreases n - i,
        {
            let x = self.get(i);
            res = res.add(x.mul(x));
            i += 1;
        }
        res
    }

    /// The projection against `other`, entry by entry:
    /// `self[i] * (self . other) / |other|^2`.
    pub fn proj(&self, other: &Vector) -> (r: Vector)
        requires
            self@.len() == other@.len(),
        ensures
            r@.len() == self@.len(),
            forall|i: int| 0 <= i < self@.len() ==> r@[i] == rat_div(
                rat_mul(self@[i], dot_prefix(self@, other@, self@.len() as int)),
                dot_prefix(other@, other@, other@.len() as int),
            ),
    {
        let n = self.elements.len();
        let d = self.dot(other);
        let m = other.mag_sq();
        let mut out = Vector::new(n);
        let mut i: usize = 0;
        while i < n
            invariant
                n == self@.len(),
                self@.len() == other@.len(),
                i <= n,
                out@.len() == n,
                d@ == dot_prefix(self@, other@, n as int),
                m@ == dot_prefix(other@, other@, n as int),
                forall|j: int| 0 <= j < i ==> out@[j] == rat_div(
                    rat_mul(self@[j], dot_prefix(self@, other@, n as int)),
                    dot_prefix(other@, other@, n as int),
                ),
            decreases n - i,
        {
            out.set(i, self.get(i).mul(d).div(m));
            i += 1;
        }
        out
    }

    /// Sum of the entries, accumulated left to right.
    pub fn sum(&self) -> (r: Scalar)
        ensures
            r@ == sum_prefix(self@, self@.len() as int),
    {
        let n = self.elements.len();
        let mut res = Scalar::zero();
        let mut i: usize = 0;
        while i < n
            invariant
                n == self@.len(),
                i <= n,
                res@ == sum_prefix(self@, i as int),
            decreases n - i,
        {
            res = res.add(self.get(i));
            i += 1;
        }
        res
    }

    /// The three-entry cross-product combination, with the middle
    /// entry oriented the way this library has always written it.
    pub fn cross(&self, other: &Vector) -> (r: Vector)
        requires
            self@.len() == 3,
            other@.len() == 3,
        ensures
            r@.len() == 3,
            r@[0] == rat_sub(rat_mul(self@[1], other@[2]), rat_mul(self@[2], other@[1])),
            r@[1] == rat_sub(rat_mul(self@[0], other@[2]), rat_mul(self@[2], other@[0])),
            r@[2] == rat_sub(rat_mul(self@[0], other@[1]), rat_mul(self@[1], other@[0])),
    {
        let mut res = Vector::new(3);
        res.set(0, self.get(1).mul(other.get(2)).sub(self.get(2).mul(other.get(1))));
        res.set(1, self.get(0).mul(other.get(2)).sub(self.get(2).mul(other.get(0))));
        res.set(2, self.get(0).mul(other.get(1)).sub(self.get(1).mul(other.get(0))));
        res
    }

    /// Do the two vectors agree to tolerance `tol` in every entry?
    /// Length mismatch compares as not close.
    pub fn approximately(&self, other: &Vector, tol: Scalar) -> (r: bool)
        ensures
            r == vec_approx(self@, other@, tol@),
    {
        if self.elements.len() != other.elements.len() {
            return false;
        }
        let n = self.elements.len();
        let mut i: usize = 0;
        while i < n
            invariant
                n == self@.len(),
                self@.len() == other@.len(),
                i <= n,
                forall|j: int| 0 <= j < i ==> rat_within(self@[j], other@[j], tol@),
            decreases n - i,
        {
            if !self.get(i).sub(other.get(i)).abs().le(tol) {
                return false;
            }
            i += 1;
        }
        true
    }
}

} // verus!
