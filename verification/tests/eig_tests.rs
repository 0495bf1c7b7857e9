use redpill::decompositions::eig::{shift_split, recompose_step, EIG};
use redpill::decompositions::qr::QR;
use redpill::matrix::Mat;
use redpill::scalar::Scalar;

fn s(n: i64) -> Scalar {
    Scalar::from_int(n)
}

fn q(n: i64, d: i64) -> Scalar {
    Scalar::new(n, d)
}

fn tol() -> Scalar {
    Scalar::new(1, 100_000_000)
}

// The exactly representable reflection [[3/5, 4/5], [4/5, -3/5]].
fn house_q() -> Mat {
    Mat::from_vec((2, 2), vec![q(3, 5), q(4, 5), q(4, 5), q(-3, 5)])
}

#[test]
fn shift_split_test() {
    let a = Mat::from_vec((2, 2), vec![s(1), s(2), s(3), s(4)]);
    let (shifted, mu) = shift_split(&a);
    assert!(mu.equals(s(4)));
    let expected = Mat::from_vec((2, 2), vec![s(-3), s(2), s(3), s(0)]);
    assert!(shifted.approximately(&expected, tol()));
}

#[test]
fn recompose_step_identity_q_test() {
    // With Q the identity the next iterate is R with the shift put
    // back on the diagonal, and the transform is unchanged.
    let f = QR { q: Mat::eye(2), r: Mat::from_vec((2, 2), vec![s(5), s(1), s(0), s(2)]) };
    let vecs = Mat::eye(2);
    let (next, acc) = recompose_step(&f, s(3), &vecs);
    let next_true = Mat::from_vec((2, 2), vec![s(8), s(1), s(0), s(5)]);
    assert!(next.approximately(&next_true, tol()));
    assert!(acc.approximately(&Mat::eye(2), tol()));
}

#[test]
fn eig_pass_exact_test() {
    // One full pass on A = [[3, 4], [4, 0]]: the shift is the zero in
    // the corner, and the shifted matrix factors exactly as
    // Q = [[3/5, 4/5], [4/5, -3/5]], R = [[5, 12/5], [0, 16/5]].
    let a = Mat::from_vec((2, 2), vec![s(3), s(4), s(4), s(0)]);
    let (shifted, mu) = shift_split(&a);
    assert!(mu.equals(s(0)));

    let r = Mat::from_vec((2, 2), vec![s(5), q(12, 5), s(0), q(16, 5)]);
    let f = QR { q: house_q(), r };
    assert!(shifted.approximately(&f.q.matmul(&f.r), tol()));

    let (next, vecs) = recompose_step(&f, mu, &Mat::eye(2));
    let next_true = Mat::from_vec(
        (2, 2),
        vec![q(123, 25), q(64, 25), q(64, 25), q(-48, 25)],
    );
    assert!(next.approximately(&next_true, tol()));
    assert!(vecs.approximately(&house_q(), tol()));

    let e = EIG::from_iterate(&next, vecs);
    assert!(e.eigvals.get(0).equals(q(123, 25)));
    assert!(e.eigvals.get(1).equals(q(-48, 25)));
    assert_eq!(e.eigvecs.shape(), (2, 2));
}
