use redpill::decompositions::lu::LU;
use redpill::decompositions::solve;
use redpill::matrix::Mat;
use redpill::scalar::Scalar;
use redpill::vector::Vector;

fn s(n: i64) -> Scalar {
    Scalar::from_int(n)
}

fn q(n: i64, d: i64) -> Scalar {
    Scalar::new(n, d)
}

fn tol() -> Scalar {
    Scalar::new(1, 100_000_000)
}

#[test]
fn lup_reconstruction_test() {
    // P . A = L . U for the pivoted factorization: the permuted rows
    // of the input equal the product of the extracted factors.
    let a = Mat::from_vec(
        (3, 3),
        vec![s(0), s(5), q(22, 3), s(4), s(2), s(1), s(2), s(7), s(9)],
    );
    let lup = a.clone().lup();

    let mut pa = Mat::new((3, 3));
    for i in 0..3 {
        for j in 0..3 {
            pa.set(i, j, a.get(lup.perm[i], j));
        }
    }

    let factors = LU { compact: lup.compact.clone() };
    let (l, u) = factors.split();
    assert!(pa.approximately(&l.matmul(&u), tol()));
}

#[test]
fn solve_satisfies_system_test() {
    // The returned solution satisfies A . x = b, for the plain and
    // the pivoted factorization alike.
    let a = Mat::from_vec(
        (3, 3),
        vec![s(2), s(1), s(1), s(1), s(3), s(2), s(1), s(0), s(1)],
    );
    let b = Vector::from_vec(vec![s(4), s(5), s(6)]);

    let x1 = a.clone().lu().solve(&b);
    assert!(a.vecmul(&x1).approximately(&b, tol()));

    let x2 = a.clone().lup().solve(&b);
    assert!(a.vecmul(&x2).approximately(&b, tol()));
}

#[test]
fn lup_no_swap_matches_lu_test() {
    // With no pivot swap the pivoted elimination is the plain one:
    // same compact matrix, identity permutation, equal determinants.
    let a = Mat::from_vec((2, 2), vec![s(4), s(1), s(1), s(3)]);
    let lu = a.clone().lu();
    let lup = a.lup();
    assert_eq!(lup.num_swaps, 0);
    assert_eq!(lup.perm, vec![0, 1]);
    assert!(lup.compact.approximately(&lu.compact, tol()));
    assert!(lup.det().equals(lu.det()));
    assert!(lup.det().equals(s(11)));
}

#[test]
fn lup_det_sign_flip_test() {
    // One swap: the determinant is the negated diagonal product.
    let a = Mat::from_vec((2, 2), vec![s(0), s(1), s(1), s(0)]);
    let lup = a.lup();
    assert_eq!(lup.num_swaps, 1);
    // The compact matrix is the identity, so the unpivoted reading of
    // the same diagonal would give +1; the parity flips it.
    let plain = LU { compact: lup.compact.clone() };
    assert!(plain.det().equals(s(1)));
    assert!(lup.det().equals(s(-1)));
}

#[test]
fn lup_even_swaps_det_test() {
    // Two swaps: the parity is even and the sign stays.
    let a = Mat::from_vec(
        (3, 3),
        vec![s(0), s(5), q(22, 3), s(4), s(2), s(1), s(2), s(7), s(9)],
    );
    let lup = a.lup();
    assert_eq!(lup.num_swaps, 2);
    assert!(lup.det().equals(s(6)));
}

#[test]
fn lu_zero_pivot_non_finite_test() {
    // Without pivoting a zero pivot is divided by: the non-finite
    // value propagates silently into the factorization.
    let a = Mat::from_vec((2, 2), vec![s(0), s(1), s(1), s(0)]);
    let lu = a.lu();
    assert!(lu.det().is_nan());
}

#[test]
fn inverse_exact_entries_test() {
    // The first column of the inverse of [[1,1,1],[4,3,-1],[3,5,3]]
    // is [7/5, -3/2, 11/10], exactly, from either factorization.
    let a = Mat::from_vec(
        (3, 3),
        vec![s(1), s(1), s(1), s(4), s(3), s(-1), s(3), s(5), s(3)],
    );
    let lu_inv = a.clone().lu().inv();
    let lup_inv = a.lup().inv();
    for inv in [&lu_inv, &lup_inv] {
        assert!(inv.get(0, 0).equals(q(7, 5)));
        assert!(inv.get(1, 0).equals(q(-3, 2)));
        assert!(inv.get(2, 0).equals(q(11, 10)));
    }
}

#[test]
fn free_solve_test() {
    // The one-call entry point factors with pivoting and solves.
    let a = Mat::from_vec((2, 2), vec![s(-3), s(2), s(5), s(-2)]);
    let b = Vector::from_vec(vec![s(-2), s(7)]);
    let x = solve(a, &b);
    assert!(x.approximately(&Vector::from_vec(vec![q(5, 2), q(11, 4)]), tol()));
}

#[test]
fn lu_factors_shape_test() {
    // l() carries the unit diagonal and zeros above it; u() carries
    // zeros below the diagonal.
    let a = Mat::from_vec((2, 2), vec![s(4), s(2), s(2), s(3)]);
    let lu = a.lu();
    let l = lu.l();
    let u = lu.u();
    assert!(l.get(0, 0).equals(s(1)));
    assert!(l.get(1, 1).equals(s(1)));
    assert!(l.get(0, 1).equals(s(0)));
    assert!(l.get(1, 0).equals(q(1, 2)));
    assert!(u.get(1, 0).equals(s(0)));
    assert!(u.get(0, 0).equals(s(4)));
    assert!(u.get(0, 1).equals(s(2)));
    assert!(u.get(1, 1).equals(s(2)));
}
