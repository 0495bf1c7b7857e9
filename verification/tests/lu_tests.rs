use redpill::matrix::Mat;
use redpill::scalar::Scalar;
use redpill::vector::Vector;

fn s(n: i64) -> Scalar {
    Scalar::from_int(n)
}

fn q(n: i64, d: i64) -> Scalar {
    Scalar::new(n, d)
}

fn tol() -> Scalar {
    Scalar::new(1, 100_000_000)
}

#[test]
fn lu_tests_lu_test() {
    let matrix = Mat::from_vec(
        (3, 3),
        vec![s(1), s(1), s(1), s(4), s(3), s(-1), s(3), s(5), s(3)],
    );

    let lu_true = Mat::from_vec(
        (3, 3),
        vec![s(1), s(1), s(1), s(4), s(-1), s(-5), s(3), s(-2), s(-10)],
    );

    let lu = matrix.clone().lu();
    assert!(matrix.approximately(&lu.l().matmul(&lu.u()), tol()));
    let (l, u) = lu.split();
    assert!(matrix.approximately(&l.matmul(&u), tol()));
    assert!(lu.compact.approximately(&lu_true, tol()));
}

#[test]
fn lu_solve_test() {
    let matrix = Mat::from_vec((2, 2), vec![s(-3), s(2), s(5), s(-2)]);

    let b = Vector::from_vec(vec![s(-2), s(7)]);

    let x = matrix.lu().solve(&b);
    let x_true = Vector::from_vec(vec![q(5, 2), q(11, 4)]);
    assert!(x.approximately(&x_true, tol()));
}

#[test]
fn lu_inv_test() {
    let matrix = Mat::from_vec(
        (3, 3),
        vec![s(1), s(1), s(1), s(4), s(3), s(-1), s(3), s(5), s(3)],
    );

    let inv = matrix.clone().lu().inv();
    assert!(matrix.matmul(&inv).approximately(&Mat::eye(3), tol()));
}

#[test]
fn lu_det_test() {
    let matrix = Mat::from_vec(
        (3, 3),
        vec![s(2), s(-3), s(1), s(2), s(0), s(-1), s(1), s(4), s(5)],
    );

    assert!(matrix.lu().det().sub(s(49)).abs().le(tol()));
}
