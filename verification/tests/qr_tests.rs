use redpill::decompositions::qr::{householder_step, partial_matmul, subcol_norm_sq, QR};
use redpill::matrix::Mat;
use redpill::scalar::Scalar;
use redpill::vector::Vector;

fn s(n: i64) -> Scalar {
    Scalar::from_int(n)
}

fn q(n: i64, d: i64) -> Scalar {
    Scalar::new(n, d)
}

fn tol() -> Scalar {
    Scalar::new(1, 100_000_000)
}

// An exactly representable orthogonal factor: the reflection
// [[3/5, 4/5], [4/5, -3/5]].
fn house_q() -> Mat {
    Mat::from_vec((2, 2), vec![q(3, 5), q(4, 5), q(4, 5), q(-3, 5)])
}

#[test]
fn qr_solve_exact_test() {
    // A = Q . R = [[3, 11/5], [4, -2/5]]; with x = [1, 2] the
    // right-hand side is b = A . x = [37/5, 16/5].
    let r = Mat::from_vec((2, 2), vec![s(5), s(1), s(0), s(2)]);
    let a = house_q().matmul(&r);
    let x_true = Vector::from_vec(vec![s(1), s(2)]);
    let b = a.vecmul(&x_true);
    assert!(b.approximately(&Vector::from_vec(vec![q(37, 5), q(16, 5)]), tol()));

    let mut qr = QR { q: house_q(), r };
    let x = qr.solve(&b);
    assert!(x.approximately(&x_true, tol()));

    // The solution satisfies A . x = b.
    assert!(a.vecmul(&x).approximately(&b, tol()));
}

#[test]
fn qr_det_exact_test() {
    // The diagonal of Q multiplies to -9/25, so the sign is negative;
    // the magnitude is the diagonal product of R.
    let r = Mat::from_vec((2, 2), vec![s(5), s(1), s(0), s(2)]);
    let qr = QR { q: house_q(), r };
    assert!(qr.det().equals(s(-10)));
}

#[test]
fn qr_det_identity_q_test() {
    // With Q the identity the determinant is the diagonal product of
    // R alone.
    let r = Mat::from_vec((3, 3), vec![s(2), s(7), s(1), s(0), s(-3), s(4), s(0), s(0), s(5)]);
    let qr = QR { q: Mat::eye(3), r };
    assert!(qr.det().equals(s(-30)));
}

#[test]
fn subcol_norm_sq_test() {
    let a = Mat::from_vec((3, 2), vec![s(3), s(1), s(4), s(2), q(1, 2), s(0)]);
    assert!(subcol_norm_sq(&a, 0).equals(q(101, 4)));
    assert!(subcol_norm_sq(&a, 1).equals(s(4)));
}

#[test]
fn partial_matmul_test() {
    let a = Mat::from_vec((2, 2), vec![s(1), s(2), s(3), s(4)]);
    let b = Mat::from_vec((2, 2), vec![s(5), s(6), s(7), s(8)]);
    // From column zero this is the full product.
    let full = partial_matmul(&a, &b, 0);
    assert!(full.approximately(&a.matmul(&b), tol()));
    // From column one the first column is copied through unchanged.
    let part = partial_matmul(&a, &b, 1);
    assert!(part.get(0, 0).equals(s(1)));
    assert!(part.get(1, 0).equals(s(3)));
    assert!(part.get(0, 1).equals(s(16)));
    assert!(part.get(1, 1).equals(s(32)));
}

#[test]
fn qr_construction_exact_test() {
    // The full construction of A = [[3, 1], [4, 2]]: both sub-column
    // norms are perfect squares (25, then 4/25), so the two roots the
    // caller supplies are the exact rationals 5 and 2/5.
    let a = Mat::from_vec((2, 2), vec![s(3), s(1), s(4), s(2)]);

    assert!(subcol_norm_sq(&a, 0).equals(s(25)));
    let (q1, r1) = householder_step(&Mat::eye(2), &a, 0, s(5));
    assert!(q1.approximately(&house_q(), tol()));
    let r1_true = Mat::from_vec((2, 2), vec![s(5), q(11, 5), s(0), q(-2, 5)]);
    assert!(r1.approximately(&r1_true, tol()));

    assert!(subcol_norm_sq(&r1, 1).equals(q(4, 25)));
    let (q2, r2) = householder_step(&q1, &r1, 1, q(2, 5));
    let q_true = Mat::from_vec((2, 2), vec![q(3, 5), q(-4, 5), q(4, 5), q(3, 5)]);
    let r_true = Mat::from_vec((2, 2), vec![s(5), q(11, 5), s(0), q(2, 5)]);
    assert!(q2.approximately(&q_true, tol()));
    assert!(r2.approximately(&r_true, tol()));

    // Reconstruction: Q . R gives back the input exactly.
    assert!(a.approximately(&q2.matmul(&r2), tol()));
    // Orthogonality: Qt . Q is the identity exactly.
    assert!(q2.transposed().matmul(&q2).approximately(&Mat::eye(2), tol()));

    // The factorization solves and takes determinants as usual.
    let mut f = QR { q: q2, r: r2 };
    assert!(f.det().equals(s(2)));
    let b = a.vecmul(&Vector::from_vec(vec![s(1), s(1)]));
    let x = f.solve(&b);
    assert!(x.approximately(&Vector::from_vec(vec![s(1), s(1)]), tol()));
}

#[test]
fn householder_degraded_test() {
    // A zero sub-column gives a zero reflection vector: the step
    // degrades to the identity and both factors pass through
    // unchanged.
    let a = Mat::from_vec((2, 2), vec![s(0), s(1), s(0), s(2)]);
    assert!(subcol_norm_sq(&a, 0).equals(s(0)));
    let (q1, r1) = householder_step(&Mat::eye(2), &a, 0, s(0));
    assert!(q1.approximately(&Mat::eye(2), tol()));
    assert!(r1.approximately(&a, tol()));
}

#[test]
fn qr_test() {
    let matrix = Mat::from_vec(
        (3, 3),
        vec![s(1), s(1), s(1), s(4), s(3), s(-1), s(3), s(5), s(3)],
    );

    // One root per column drives the construction. Reconstruction is
    // an exact identity whatever root is supplied (every reflector is
    // exactly an involution), so coarse integer roots are used here to
    // keep the exact scalars well inside their range.
    let mut q = Mat::eye(3);
    let mut r = matrix.clone();
    for i in 0..3 {
        let ns = subcol_norm_sq(&r, i);
        let v = ns.num() as f64 / ns.den() as f64;
        let root = Scalar::from_int(v.sqrt().round() as i64);
        let (q2, r2) = householder_step(&q, &r, i, root);
        q = q2;
        r = r2;
    }

    assert!(matrix.approximately(&q.matmul(&r), tol()));
    // The accumulated factor is exactly orthogonal as well.
    assert!(q.transposed().matmul(&q).approximately(&Mat::eye(3), tol()));
}
