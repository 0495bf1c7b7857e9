use redpill::scalar::Scalar;

fn s(n: i64) -> Scalar {
    Scalar::from_int(n)
}

fn q(n: i64, d: i64) -> Scalar {
    Scalar::new(n, d)
}

#[test]
fn scalar_exact_arithmetic_test() {
    assert!(q(1, 2).add(q(1, 3)).equals(q(5, 6)));
    assert!(q(1, 2).sub(q(1, 3)).equals(q(1, 6)));
    assert!(q(2, 3).mul(q(9, 4)).equals(q(3, 2)));
    assert!(q(2, 3).div(q(4, 9)).equals(q(3, 2)));
    assert!(s(7).neg().equals(s(-7)));
    assert!(q(-3, 4).abs().equals(q(3, 4)));
    // Unreduced fractions still compare equal by value.
    assert!(q(2, 4).equals(q(1, 2)));
    // The sign lives on the numerator whatever was handed in.
    assert!(q(1, -2).equals(q(-1, 2)));
}

#[test]
fn scalar_order_test() {
    assert!(q(1, 3).le(q(1, 2)));
    assert!(!q(1, 2).le(q(1, 3)));
    assert!(q(1, 2).le(q(1, 2)));
    assert!(q(-1, 2).le(q(1, 3)));
    assert!(s(3).abs_gt(s(-2)));
    assert!(s(-4).abs_gt(s(3)));
    assert!(!s(2).abs_gt(s(-2)));
}

#[test]
fn scalar_non_finite_test() {
    // Dividing by zero is not guarded: it yields the absorbing
    // non-finite value, which every operation propagates and which
    // compares equal to nothing, itself included.
    let nan = s(1).div(s(0));
    assert!(nan.is_nan());
    assert!(nan.add(s(1)).is_nan());
    assert!(s(1).sub(nan).is_nan());
    assert!(nan.mul(nan).is_nan());
    assert!(!nan.equals(nan));
    assert!(!nan.le(s(1)));
    assert!(!nan.abs_gt(s(0)));
    assert!(Scalar::nan().is_nan());
    assert!(Scalar::new(5, 0).is_nan());
}

#[test]
fn scalar_overflow_is_non_finite_test() {
    let big = s(i64::MAX);
    assert!(!big.is_nan());
    assert!(big.mul(big).is_nan());
    assert!(big.add(q(1, 3)).is_nan());
}

#[test]
fn scalar_sign_factor_test() {
    assert!(q(7, 3).sign_factor().equals(s(1)));
    assert!(q(-7, 3).sign_factor().equals(s(-1)));
    // Zero takes the positive sign, as IEEE signum gives +0.0.
    assert!(s(0).sign_factor().equals(s(1)));
    assert!(Scalar::nan().sign_factor().is_nan());
}
