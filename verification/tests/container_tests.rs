use redpill::matrix::Mat;
use redpill::scalar::Scalar;
use redpill::vector::Vector;

fn s(n: i64) -> Scalar {
    Scalar::from_int(n)
}

fn q(n: i64, d: i64) -> Scalar {
    Scalar::new(n, d)
}

fn tol() -> Scalar {
    Scalar::new(1, 100_000_000)
}

#[test]
fn shape_and_eye_test() {
    let m = Mat::new((2, 5));
    assert_eq!(m.shape(), (2, 5));
    assert_eq!(m.rows(), 2);
    assert_eq!(m.cols(), 5);

    let id = Mat::eye(3);
    for i in 0..3 {
        for j in 0..3 {
            let expected = if i == j { s(1) } else { s(0) };
            assert!(id.get(i, j).equals(expected));
        }
    }
}

#[test]
fn transpose_test() {
    let m = Mat::from_vec((2, 3), vec![s(1), s(2), s(3), s(4), s(5), s(6)]);
    let t = m.transposed();
    assert_eq!(t.shape(), (3, 2));
    for i in 0..3 {
        for j in 0..2 {
            assert!(t.get(i, j).equals(m.get(j, i)));
        }
    }

    // Transposing twice gives back the original entries.
    let back = t.transposed();
    assert!(back.approximately(&m, tol()));

    let mut n = m.clone();
    n.transpose();
    assert_eq!(n.shape(), (3, 2));
    assert!(n.get(2, 1).equals(s(6)));

    let owned = m.clone().transpose_self();
    assert_eq!(owned.shape(), (3, 2));
    assert!(owned.get(0, 1).equals(s(4)));
}

#[test]
fn swap_rows_test() {
    let mut m = Mat::from_vec((3, 2), vec![s(1), s(2), s(3), s(4), s(5), s(6)]);
    m.swap_rows(0, 2);
    assert!(m.get(0, 0).equals(s(5)));
    assert!(m.get(0, 1).equals(s(6)));
    assert!(m.get(1, 0).equals(s(3)));
    assert!(m.get(2, 0).equals(s(1)));
    assert!(m.get(2, 1).equals(s(2)));
}

#[test]
fn submat_test() {
    let m = Mat::from_vec((3, 3), vec![s(1), s(2), s(3), s(4), s(5), s(6), s(7), s(8), s(9)]);
    let sub = m.submat(1, 3, 0, 2).unwrap();
    assert_eq!(sub.shape(), (2, 2));
    assert!(sub.get(0, 0).equals(s(4)));
    assert!(sub.get(0, 1).equals(s(5)));
    assert!(sub.get(1, 0).equals(s(7)));
    assert!(sub.get(1, 1).equals(s(8)));

    // Reversed or out-of-range bounds are rejected.
    assert!(m.submat(2, 1, 0, 2).is_err());
    assert!(m.submat(0, 2, 2, 1).is_err());
    assert!(m.submat(0, 4, 0, 2).is_err());
    assert!(m.submat(0, 2, 0, 4).is_err());
}

#[test]
fn iter_trace_test() {
    let m = Mat::from_vec((2, 3), vec![s(1), s(2), s(3), s(4), s(5), s(6)]);
    let mut it = m.iter_trace();
    assert!(it.next().unwrap().equals(s(1)));
    assert!(it.next().unwrap().equals(s(5)));
    assert!(it.next().is_none());
    assert!(it.next().is_none());
}

#[test]
fn iter_submat_test() {
    let m = Mat::from_vec((3, 3), vec![s(1), s(2), s(3), s(4), s(5), s(6), s(7), s(8), s(9)]);
    let mut it = m.iter_submat(0, 2, 1, 3).unwrap();
    let expected = [s(2), s(3), s(5), s(6)];
    for e in expected.iter() {
        assert!(it.next().unwrap().equals(*e));
    }
    assert!(it.next().is_none());

    assert!(m.iter_submat(2, 1, 0, 2).is_err());
    assert!(m.iter_submat(0, 2, 0, 4).is_err());
}

#[test]
fn mat_iter_row_major_test() {
    let m = Mat::from_vec((2, 2), vec![s(1), s(2), s(3), s(4)]);
    let flat = m.iter();
    assert_eq!(flat.len(), 4);
    assert!(flat[0].equals(s(1)));
    assert!(flat[1].equals(s(2)));
    assert!(flat[2].equals(s(3)));
    assert!(flat[3].equals(s(4)));

    // After a transpose the copy follows the transposed layout.
    let t = m.transposed();
    let tf = t.iter();
    assert!(tf[0].equals(s(1)));
    assert!(tf[1].equals(s(3)));
    assert!(tf[2].equals(s(2)));
    assert!(tf[3].equals(s(4)));
}

#[test]
fn matmul_test() {
    let a = Mat::from_vec((2, 3), vec![s(1), s(2), s(3), s(4), s(5), s(6)]);
    let b = Mat::from_vec((3, 2), vec![s(7), s(8), s(9), s(10), s(11), s(12)]);
    let c = a.matmul(&b);
    let c_true = Mat::from_vec((2, 2), vec![s(58), s(64), s(139), s(154)]);
    assert!(c.approximately(&c_true, tol()));
}

#[test]
fn vecmul_test() {
    let a = Mat::from_vec((2, 3), vec![s(1), s(2), s(3), s(4), s(5), s(6)]);
    let x = Vector::from_vec(vec![s(1), s(0), s(-1)]);
    let y = a.vecmul(&x);
    assert!(y.approximately(&Vector::from_vec(vec![s(-2), s(-2)]), tol()));
}

#[test]
fn vector_ops_test() {
    let a = Vector::from_vec(vec![s(1), s(2), s(3)]);
    let b = Vector::from_vec(vec![s(4), s(5), s(6)]);
    assert_eq!(a.len(), 3);
    assert!(a.dot(&b).equals(s(32)));
    assert!(a.sum().equals(s(6)));

    // The middle cross entry keeps this library's orientation.
    let c = a.cross(&b);
    assert!(c.get(0).equals(s(-3)));
    assert!(c.get(1).equals(s(-6)));
    assert!(c.get(2).equals(s(-3)));

    let p = Vector::from_vec(vec![s(1), s(2)]);
    let onto = Vector::from_vec(vec![s(3), s(4)]);
    let pr = p.proj(&onto);
    assert!(pr.get(0).equals(q(11, 25)));
    assert!(pr.get(1).equals(q(22, 25)));

    let mut v = Vector::new(2);
    v.set(0, s(9));
    assert!(v.get(0).equals(s(9)));
    assert!(v.get(1).equals(s(0)));
    let copied = v.iter();
    assert!(copied[0].equals(s(9)));
}

#[test]
fn mat_equals_test() {
    let a = Mat::from_vec((2, 2), vec![s(1), q(1, 2), s(0), s(3)]);
    let b = Mat::from_vec((2, 2), vec![s(1), q(2, 4), s(0), s(3)]);
    assert!(a.equals(&b));
    let c = Mat::from_vec((2, 2), vec![s(1), q(1, 2), s(0), s(4)]);
    assert!(!a.equals(&c));
    let d = Mat::from_vec((1, 4), vec![s(1), q(1, 2), s(0), s(3)]);
    assert!(!a.equals(&d));
    // A non-finite entry makes a matrix equal to nothing, itself
    // included.
    let e = Mat::from_vec((1, 1), vec![Scalar::nan()]);
    assert!(!e.equals(&e));
}

#[test]
fn approximately_tolerance_test() {
    let a = Mat::from_vec((1, 2), vec![s(1), s(2)]);
    let close = Mat::from_vec((1, 2), vec![q(1_000_000_001, 1_000_000_000), s(2)]);
    let far = Mat::from_vec((1, 2), vec![q(11, 10), s(2)]);
    assert!(a.approximately(&close, tol()));
    assert!(!a.approximately(&far, tol()));

    let u = Vector::from_vec(vec![s(1)]);
    let w = Vector::from_vec(vec![s(1), s(2)]);
    assert!(!u.approximately(&w, tol()));
    assert!(u.approximately(&Vector::from_vec(vec![s(1)]), tol()));
}
