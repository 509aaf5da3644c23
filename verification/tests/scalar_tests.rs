use simple_md::scalar::{Scalar, SCALE};

fn s(n: i64) -> Scalar {
    Scalar::from_int(n)
}

#[test]
fn from_int_scales() {
    assert_eq!(s(6).raw, 6 * SCALE);
    assert_eq!(s(0).raw, 0);
    assert_eq!(s(-3).raw, -3 * SCALE);
}

#[test]
fn exact_arithmetic() {
    assert_eq!(s(2).add(s(3)), s(5));
    assert_eq!(s(2).sub(s(5)), s(-3));
    assert_eq!(s(3).mul(s(2)), s(6));
    assert_eq!(s(-3).mul(s(2)), s(-6));
    assert_eq!(s(6).div(s(2)), s(3));
}

#[test]
fn division_truncates_toward_zero() {
    assert_eq!(s(1).div(s(2)).raw, SCALE / 2);
    assert_eq!(s(1).div(s(3)).raw, 349525);
    assert_eq!(s(-1).div(s(3)).raw, -349525);
}

#[test]
fn division_by_zero_saturates() {
    assert_eq!(s(1).div(Scalar::zero()).raw, i64::MAX);
    assert_eq!(s(-1).div(Scalar::zero()).raw, i64::MIN);
    assert_eq!(Scalar::zero().div(Scalar::zero()).raw, 0);
}

#[test]
fn addition_saturates() {
    assert_eq!(Scalar { raw: i64::MAX }.add(Scalar { raw: 1 }).raw, i64::MAX);
    assert_eq!(Scalar { raw: i64::MIN }.sub(Scalar { raw: 1 }).raw, i64::MIN);
}

#[test]
fn square_roots() {
    assert_eq!(s(4).sqrt(), s(2));
    assert_eq!(s(9).sqrt(), s(3));
    assert_eq!(s(8).sqrt().raw, 2965820);
    assert_eq!(s(0).sqrt(), s(0));
    assert_eq!(s(-4).sqrt(), s(0));
}
