use redpill::matrix::Mat;
use redpill::scalar::Scalar;

fn s(n: i64) -> Scalar {
    Scalar::from_int(n)
}

fn tol() -> Scalar {
    Scalar::new(1, 100_000_000)
}

#[test]
fn mat_test_macro() {
    // The two columns [1, 3] and [2, 4], written out in row-major
    // order by hand.
    let a = Mat::from_vec((2, 2), vec![s(1), s(2), s(3), s(4)]);

    let mut b = Mat::new((2, 2));
    b.set(0, 0, s(1));
    b.set(0, 1, s(2));
    b.set(1, 0, s(3));
    b.set(1, 1, s(4));

    assert!(a.approximately(&b, tol()));
}
