use measures::measure::Measure;
use measures::ratio::{Ratio, LIMIT};
use measures::uncertainty::{Kind, MeasureError};

fn ratio(num: i64, den: i64) -> Ratio {
    Ratio::new(num, den).unwrap()
}

fn value_parts(m: &Measure) -> (i64, i64) {
    (m.value().numerator(), m.value().denominator())
}

fn error_parts(m: &Measure) -> (Kind, i64, i64, usize) {
    let u = m.uncertainty();
    (u.kind(), u.magnitude().numerator(), u.magnitude().denominator(), u.precision())
}

#[test]
fn constructors_set_value_and_uncertainty() {
    let c = Measure::with_no_err(ratio(123, 100));
    assert_eq!(value_parts(&c), (123, 100));
    assert_eq!(error_parts(&c), (Kind::Certain, 0, 1, 5));
    let a = Measure::with_abs_err(ratio(2, 1), ratio(-1, 10));
    assert_eq!(value_parts(&a), (2, 1));
    assert_eq!(error_parts(&a), (Kind::Absolute, 1, 10, 5));
    let r = Measure::with_rel_err(ratio(-2, 1), ratio(-50, 1));
    assert_eq!(value_parts(&r), (-2, 1));
    assert_eq!(error_parts(&r), (Kind::Relative, 50, 1, 5));
}

#[test]
fn with_precision_changes_only_the_precision() {
    let a = Measure::with_abs_err(ratio(2, 1), ratio(1, 10));
    let b = a.with_precision(2);
    assert_eq!(value_parts(&b), (2, 1));
    assert_eq!(error_parts(&b), (Kind::Absolute, 1, 10, 2));
    assert_eq!(error_parts(&a), (Kind::Absolute, 1, 10, 5));
}

#[test]
fn interval_of_an_absolute_error() {
    let m = Measure::with_abs_err(ratio(10, 1), ratio(2, 1));
    let (low, high) = m.resolve_interval().unwrap();
    assert_eq!((low.numerator(), low.denominator()), (8, 1));
    assert_eq!((high.numerator(), high.denominator()), (12, 1));
}

#[test]
fn interval_of_a_relative_error() {
    let m = Measure::with_rel_err(ratio(-2, 1), ratio(50, 1));
    let (low, high) = m.resolve_interval().unwrap();
    assert!(low.same(&ratio(-3, 1)));
    assert!(high.same(&ratio(-1, 1)));
}

#[test]
fn interval_of_an_exact_value() {
    let m = Measure::with_no_err(ratio(7, 2));
    let (low, high) = m.resolve_interval().unwrap();
    assert!(low.same(&ratio(7, 2)));
    assert!(high.same(&ratio(7, 2)));
}

#[test]
fn interval_is_symmetric_about_the_value() {
    let m = Measure::with_rel_err(ratio(17, 3), ratio(12, 5));
    let (low, high) = m.resolve_interval().unwrap();
    let above = high.checked_sub(&m.value()).unwrap();
    let below = m.value().checked_sub(&low).unwrap();
    assert!(above.same(&below));
    assert!(!above.is_negative());
}

#[test]
fn interval_overflow() {
    let m = Measure::with_abs_err(ratio(LIMIT, 1), ratio(1, 1));
    assert_eq!(m.resolve_interval().err(), Some(MeasureError::Overflow));
}

#[test]
fn sum_of_absolute_errors_adds_magnitudes() {
    let a = Measure::with_abs_err(ratio(1, 2), ratio(1, 4));
    let b = Measure::with_abs_err(ratio(1, 3), ratio(1, 5));
    let s = a.add(b).unwrap();
    assert_eq!(value_parts(&s), (5, 6));
    assert_eq!(error_parts(&s), (Kind::Absolute, 9, 20, 5));
}

#[test]
fn sum_converts_relative_errors() {
    let a = Measure::with_no_err(ratio(123, 100)).with_precision(1);
    let b = Measure::with_rel_err(ratio(2, 1), ratio(50, 1));
    let s = a.add(b).unwrap();
    assert!(s.value().same(&ratio(323, 100)));
    assert_eq!(s.uncertainty().kind(), Kind::Absolute);
    assert!(s.uncertainty().magnitude().same(&ratio(1, 1)));
    assert_eq!(s.uncertainty().precision(), 1);
    assert_eq!(s.render().unwrap(), "3.2 \u{b1} 1.0 := (2.2, 4.2)");
}

#[test]
fn sum_scenario_renders_at_the_coarser_precision() {
    let a = Measure::with_no_err(ratio(123, 100)).with_precision(1);
    let b = Measure::with_abs_err(ratio(2, 1), ratio(1, 10));
    let s = a.add(b).unwrap();
    assert_eq!(value_parts(&s), (323, 100));
    assert_eq!(error_parts(&s), (Kind::Absolute, 1, 10, 1));
    assert_eq!(s.render().unwrap(), "3.2 \u{b1} 0.1 := (3.1, 3.3)");
}

#[test]
fn difference_adds_the_errors() {
    let a = Measure::with_no_err(ratio(125, 100));
    let b = Measure::with_rel_err(ratio(2, 1), ratio(50, 1)).with_precision(3);
    let d = a.sub(b).unwrap();
    assert!(d.value().same(&ratio(-75, 100)));
    assert_eq!(d.uncertainty().kind(), Kind::Absolute);
    assert!(d.uncertainty().magnitude().same(&ratio(1, 1)));
    assert_eq!(d.uncertainty().precision(), 3);
    assert_eq!(d.render().unwrap(), "-0.750 \u{b1} 1.000 := (-1.750, 0.250)");
}

#[test]
fn product_adds_the_percentages() {
    let a = Measure::with_rel_err(ratio(3, 1), ratio(2, 1)).with_precision(4);
    let b = Measure::with_abs_err(ratio(2, 1), ratio(1, 10));
    let p = a.mul(b).unwrap();
    assert_eq!(value_parts(&p), (6, 1));
    assert_eq!(p.uncertainty().kind(), Kind::Relative);
    assert!(p.uncertainty().magnitude().same(&ratio(7, 1)));
    assert_eq!(p.uncertainty().precision(), 4);
}

#[test]
fn product_with_an_exact_factor() {
    let a = Measure::with_no_err(ratio(128, 100)).with_precision(1);
    let b = Measure::with_abs_err(ratio(2, 1), ratio(1, 10));
    let p = a.mul(b).unwrap();
    assert!(p.value().same(&ratio(256, 100)));
    assert!(p.uncertainty().magnitude().same(&ratio(5, 1)));
    assert_eq!(p.uncertainty().precision(), 1);
    assert_eq!(p.render().unwrap(), "2.6 \u{b1} 5.0 % := (2.4, 2.7)");
}

#[test]
fn quotient_scenario() {
    let a = Measure::with_no_err(ratio(12, 1));
    let b = Measure::with_abs_err(ratio(291, 100), ratio(1, 10)).with_precision(2);
    let q = a.div(b).unwrap();
    assert_eq!(value_parts(&q), (400, 97));
    assert_eq!(q.value().to_decimal(4), "4.1237");
    assert_eq!(q.uncertainty().kind(), Kind::Relative);
    assert!(q.uncertainty().magnitude().same(&ratio(1000, 291)));
    assert_eq!(q.uncertainty().magnitude().to_decimal(2), "3.44");
    assert_eq!(q.uncertainty().precision(), 2);
    assert_eq!(q.uncertainty().render(), "\u{b1}3.44 %");
    assert_eq!(q.render().unwrap(), "4.12 \u{b1} 3.44 % := (3.98, 4.27)");
}

#[test]
fn precision_is_the_smaller_of_the_operands() {
    let a = Measure::with_abs_err(ratio(3, 1), ratio(1, 10)).with_precision(4);
    let b = Measure::with_rel_err(ratio(2, 1), ratio(5, 1)).with_precision(2);
    assert_eq!(a.add(b).unwrap().uncertainty().precision(), 2);
    assert_eq!(b.add(a).unwrap().uncertainty().precision(), 2);
    assert_eq!(a.sub(b).unwrap().uncertainty().precision(), 2);
    assert_eq!(a.mul(b).unwrap().uncertainty().precision(), 2);
    assert_eq!(b.mul(a).unwrap().uncertainty().precision(), 2);
    assert_eq!(a.div(b).unwrap().uncertainty().precision(), 2);
    let c = Measure::with_no_err(ratio(1, 1)).with_precision(9);
    assert_eq!(c.add(a).unwrap().uncertainty().precision(), 4);
    assert_eq!(c.mul(c).unwrap().uncertainty().precision(), 9);
}

#[test]
fn product_of_a_zero_value_with_absolute_error_fails() {
    let z = Measure::with_abs_err(ratio(0, 1), ratio(1, 10));
    let b = Measure::with_abs_err(ratio(2, 1), ratio(1, 10));
    assert_eq!(z.mul(b).err(), Some(MeasureError::ZeroValue));
    assert_eq!(b.mul(z).err(), Some(MeasureError::ZeroValue));
    assert_eq!(z.div(b).err(), Some(MeasureError::ZeroValue));
}

#[test]
fn product_of_an_exact_zero_is_zero() {
    let z = Measure::with_no_err(ratio(0, 1));
    let b = Measure::with_abs_err(ratio(2, 1), ratio(1, 10));
    let p = z.mul(b).unwrap();
    assert!(p.value().is_zero());
    assert!(p.uncertainty().magnitude().same(&ratio(5, 1)));
}

#[test]
fn quotient_by_a_zero_value_fails() {
    let a = Measure::with_no_err(ratio(12, 1));
    assert_eq!(a.div(Measure::with_no_err(ratio(0, 1))).err(), Some(MeasureError::ZeroValue));
    assert_eq!(
        a.div(Measure::with_rel_err(ratio(0, 1), ratio(5, 1))).err(),
        Some(MeasureError::ZeroValue)
    );
    assert_eq!(
        a.div(Measure::with_abs_err(ratio(0, 1), ratio(5, 1))).err(),
        Some(MeasureError::ZeroValue)
    );
}

#[test]
fn operations_overflow() {
    let big = Measure::with_no_err(ratio(LIMIT, 1));
    let one = Measure::with_no_err(ratio(1, 1));
    let two = Measure::with_no_err(ratio(2, 1));
    let half = Measure::with_no_err(ratio(1, 2));
    assert_eq!(big.add(one).err(), Some(MeasureError::Overflow));
    assert_eq!(one.sub(big).unwrap().value().numerator(), 1 - LIMIT);
    assert_eq!(two.sub(big).unwrap().value().numerator(), 2 - LIMIT);
    assert_eq!(big.mul(two).err(), Some(MeasureError::Overflow));
    assert_eq!(big.div(half).err(), Some(MeasureError::Overflow));
    let wide = Measure::with_abs_err(ratio(1, 1), ratio(LIMIT, 1));
    assert_eq!(wide.add(wide).err(), Some(MeasureError::Overflow));
    assert_eq!(wide.sub(wide).err(), Some(MeasureError::Overflow));
    assert_eq!(wide.mul(one).err(), Some(MeasureError::Overflow));
}

#[test]
fn render_shows_value_error_and_interval() {
    let m = Measure::with_abs_err(ratio(10, 1), ratio(2, 1));
    assert_eq!(m.render().unwrap(), "10.00000 \u{b1} 2.00000 := (8.00000, 12.00000)");
    let r = Measure::with_rel_err(ratio(2, 1), ratio(50, 1)).with_precision(0);
    assert_eq!(r.render().unwrap(), "2 \u{b1} 50 % := (1, 3)");
    let c = Measure::with_no_err(ratio(-5, 4)).with_precision(2);
    assert_eq!(c.render().unwrap(), "-1.25 \u{b1} 0.00 := (-1.25, -1.25)");
}

#[test]
fn render_failures() {
    let m = Measure::with_abs_err(ratio(LIMIT, 1), ratio(1, 1));
    assert_eq!(m.render().err(), Some(MeasureError::Overflow));
    assert_eq!(m.with_precision(19).render().err(), Some(MeasureError::Overflow));
    let n = Measure::with_abs_err(ratio(1, 3), ratio(1, 1)).with_precision(20);
    assert_eq!(
        n.render().unwrap(),
        "0.33333333333333333333 \u{b1} 1.00000000000000000000 := (-0.66666666666666666667, 1.33333333333333333333)"
    );
}

#[test]
fn chained_operations() {
    let a = Measure::with_no_err(ratio(123, 100))
        .with_precision(1)
        .add(Measure::with_rel_err(ratio(2, 1), ratio(50, 1)))
        .unwrap();
    let d = Measure::with_no_err(ratio(12, 1))
        .div(Measure::with_abs_err(ratio(291, 100), ratio(1, 10)).with_precision(2))
        .unwrap();
    let s = a.add(d).unwrap();
    assert_eq!(s.uncertainty().kind(), Kind::Absolute);
    assert_eq!(s.uncertainty().precision(), 1);
    assert_eq!(s.render().unwrap(), "7.4 \u{b1} 1.1 := (6.2, 8.5)");
}

#[test]
fn product_of_a_difference_and_a_product() {
    let two = ratio(2, 1);
    let b = Measure::with_no_err(ratio(125, 100))
        .sub(Measure::with_rel_err(two, ratio(50, 1)).with_precision(3))
        .unwrap();
    let c = Measure::with_no_err(ratio(128, 100))
        .with_precision(1)
        .mul(Measure::with_abs_err(two, ratio(1, 10)))
        .unwrap();
    let p = b.mul(c).unwrap();
    assert!(p.value().same(&ratio(-192, 100)));
    assert_eq!(p.uncertainty().kind(), Kind::Relative);
    assert!(p.uncertainty().magnitude().same(&ratio(415, 3)));
    assert_eq!(p.uncertainty().precision(), 1);
    assert_eq!(p.render().unwrap(), "-1.9 \u{b1} 138.3 % := (-4.6, 0.7)");
}
