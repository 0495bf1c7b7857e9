use redpill::matrix::Mat;
use redpill::scalar::Scalar;

fn s(n: i64) -> Scalar {
    Scalar::from_int(n)
}

fn q(n: i64, d: i64) -> Scalar {
    Scalar::new(n, d)
}

fn tol() -> Scalar {
    Scalar::new(1, 100_000_000)
}

#[test]
fn matrix_operations_test_lup_test() {
    let matrix = Mat::from_vec(
        (3, 3),
        vec![s(0), s(5), q(22, 3), s(4), s(2), s(1), s(2), s(7), s(9)],
    );

    let lup = matrix.lup();

    let lu_true = Mat::from_vec(
        (3, 3),
        vec![s(4), s(2), s(1), q(1, 2), s(6), q(17, 2), s(0), q(5, 6), q(1, 4)],
    );

    let p_true = vec![1, 2, 0];

    assert!(lup.compact.approximately(&lu_true, tol()));
    assert_eq!(lup.perm, p_true)
}

#[test]
fn matrix_operations_test_lu_test() {
    let matrix = Mat::from_vec(
        (3, 3),
        vec![s(1), s(1), s(1), s(4), s(3), s(-1), s(3), s(5), s(3)],
    );

    let lu_true = Mat::from_vec(
        (3, 3),
        vec![s(1), s(1), s(1), s(4), s(-1), s(-5), s(3), s(-2), s(-10)],
    );

    assert!(matrix.lu().compact.approximately(&lu_true, tol()));
}
