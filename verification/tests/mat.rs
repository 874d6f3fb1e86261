use mesh_simplification::mat::{Mat, FX_EPS};
use mesh_simplification::vct::Vct;

fn fx(v: f64) -> i64 {
    (v * 4294967296.0).round() as i64
}

#[test]
fn inverse() {
    let a = Mat {
        m: [
            [fx(1.906), fx(-4.297), fx(-0.778), fx(9.577)],
            [fx(-4.297), fx(9.755), fx(1.743), fx(-21.651)],
            [fx(-0.778), fx(1.743), fx(0.339), fx(-3.865)],
            [fx(0.000), fx(0.000), fx(0.000), fx(1.000)],
        ],
    };
    let b = a.inverse().unwrap();
    let c = a.mul(&b);
    for i in 0..4 {
        for j in 0..4 {
            if i == j {
                assert!((c.m[i][j] - fx(1.0)).abs() < FX_EPS);
            } else {
                assert!(c.m[i][j].abs() < FX_EPS);
            }
        }
    }
}

#[test]
fn singular_is_rejected() {
    let z = Mat::zero();
    assert!(z.inverse().is_none());
}

#[test]
fn quadratic_form_identity() {
    let q = Mat::identity();
    let v = Vct::new(fx(1.), fx(2.), fx(3.));
    // 1 + 4 + 9 + 1 with the homogeneous fourth coordinate fixed at one.
    assert_eq!(q.multiply_by_vct(v), fx(15.));
}

#[test]
fn add_sub_split() {
    let i = Mat::identity();
    let two = i.add(&i);
    assert_eq!(two.m[3][3], fx(2.));
    let back = two.sub(&i);
    assert_eq!(back.m[0][0], fx(1.));
    assert_eq!(back.m[0][1], 0);
    let mut a = Mat::zero();
    a.m[3][0] = fx(7.);
    let s = a.split();
    assert_eq!(s.m[3][0], 0);
    assert_eq!(s.m[3][3], fx(1.));
}
