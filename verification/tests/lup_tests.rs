use redpill::matrix::Mat;
use redpill::scalar::Scalar;
use redpill::vector::Vector;

fn s(n: i64) -> Scalar {
    Scalar::from_int(n)
}

fn q(n: i64, d: i64) -> Scalar {
    Scalar::new(n, d)
}

fn tol() -> Scalar {
    Scalar::new(1, 100_000_000)
}

#[test]
fn lup_tests_lup_test() {
    let matrix = Mat::from_vec(
        (3, 3),
        vec![s(0), s(5), q(22, 3), s(4), s(2), s(1), s(2), s(7), s(9)],
    );

    let lup = matrix.lup();

    let lu_true = Mat::from_vec(
        (3, 3),
        vec![s(4), s(2), s(1), q(1, 2), s(6), q(17, 2), s(0), q(5, 6), q(1, 4)],
    );

    let p_true = vec![1, 2, 0];

    assert!(lup.compact.approximately(&lu_true, tol()));
    assert_eq!(lup.perm, p_true)
}

#[test]
fn lup_solve_test() {
    let matrix = Mat::from_vec((2, 2), vec![s(-3), s(2), s(5), s(-2)]);

    let b = Vector::from_vec(vec![s(-2), s(7)]);

    let x = matrix.lup().solve(&b);
    let x_true = Vector::from_vec(vec![q(5, 2), q(11, 4)]);
    assert!(x.approximately(&x_true, tol()));
}

#[test]
fn lup_inv_test() {
    let matrix = Mat::from_vec(
        (3, 3),
        vec![s(1), s(1), s(1), s(4), s(3), s(-1), s(3), s(5), s(3)],
    );

    let inv = matrix.clone().lup().inv();
    assert!(matrix.matmul(&inv).approximately(&Mat::eye(3), tol()));
}

#[test]
fn lup_det_test() {
    let matrix = Mat::from_vec(
        (3, 3),
        vec![s(2), s(-3), s(1), s(2), s(0), s(-1), s(1), s(4), s(5)],
    );

    assert!(matrix.lup().det().sub(s(49)).abs().le(tol()));
}
