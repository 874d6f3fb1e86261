use mesh_simplification::fx::{fx_add, fx_div, fx_mul, fx_sub};
use mesh_simplification::vct::Vct;

fn fx(v: f64) -> i64 {
    (v * 4294967296.0).round() as i64
}

fn gen() -> (Vct, Vct) {
    (Vct::new(fx(1.), fx(2.), fx(3.)), Vct::new(fx(2.), fx(3.), fx(4.)))
}

#[test]
fn add() {
    let (x, y) = gen();
    let c = Vct::new(fx(3.), fx(5.), fx(7.));
    assert_eq!(x.add(y), c);
    let s = fx(2.);
    assert_eq!(x.adds(s), Vct::new(fx_add(x.x, s), fx_add(x.y, s), fx_add(x.z, s)));
    let mut x = x;
    x = x.add(y);
    assert_eq!(x, c);
}

#[test]
fn sub() {
    let (x, y) = gen();
    let c = Vct::new(fx(-1.), fx(-1.), fx(-1.));
    assert_eq!(x.sub(y), c);
    let s = fx(2.);
    assert_eq!(x.subs(s), Vct::new(fx_sub(x.x, s), fx_sub(x.y, s), fx_sub(x.z, s)));
    let mut x = x;
    x = x.sub(y);
    assert_eq!(x, c);
}

#[test]
fn mul() {
    let (x, y) = gen();
    let c = Vct::new(fx(2.), fx(6.), fx(12.));
    assert_eq!(x.mul(y), c);
    let s = fx(2.);
    assert_eq!(x.muls(s), Vct::new(fx_mul(x.x, s), fx_mul(x.y, s), fx_mul(x.z, s)));
    let mut x = x;
    x = x.mul(y);
    assert_eq!(x, c);
}

#[test]
fn div() {
    let (x, y) = gen();
    let c = Vct::new(fx_div(fx(1.), fx(2.)), fx_div(fx(2.), fx(3.)), fx_div(fx(3.), fx(4.)));
    assert_eq!(x.div(y), c);
    let s = fx(2.);
    assert_eq!(x.divs(s), Vct::new(fx_div(x.x, s), fx_div(x.y, s), fx_div(x.z, s)));
    let mut x = x;
    x = x.div(y);
    assert_eq!(x, c);
}

#[test]
fn neg() {
    let (x, _) = gen();
    let c = Vct::new(fx(-1.), fx(-2.), fx(-3.));
    assert_eq!(x.neg(), c);
}

#[test]
fn dot_len_norm() {
    let v = Vct::new(fx(3.), fx(4.), fx(0.));
    assert_eq!(v.dot(v), fx(25.));
    assert_eq!(v.len2(), fx(25.));
    assert_eq!(v.len(), fx(5.));
    let n = v.norm();
    assert_eq!(n, Vct::new(fx_div(fx(3.), fx(5.)), fx_div(fx(4.), fx(5.)), 0));
    let cr = Vct::new(fx(1.), fx(0.), fx(0.)).cross(Vct::new(fx(0.), fx(1.), fx(0.)));
    assert_eq!(cr, Vct::new(0, 0, fx(1.)));
    let (a, b) = (Vct::new(fx(1.), fx(2.), fx(3.)), Vct::new(fx(-4.), fx(0.5), fx(2.)));
    assert_eq!(a.cross(b), b.cross(a).neg());
    let lo = v.min(Vct::new(fx(1.), fx(9.), fx(-1.)));
    assert_eq!(lo, Vct::new(fx(1.), fx(4.), fx(-1.)));
    let hi = v.max(Vct::new(fx(1.), fx(9.), fx(-1.)));
    assert_eq!(hi, Vct::new(fx(3.), fx(9.), fx(0.)));
    assert_eq!(Vct::zero(), Vct::new(0, 0, 0));
    assert_eq!(Vct::one(), Vct::new(fx(1.), fx(1.), fx(1.)));
}
