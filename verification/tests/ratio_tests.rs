use measures::ratio::{Ratio, LIMIT};

fn ratio(num: i64, den: i64) -> Ratio {
    Ratio::new(num, den).unwrap()
}

fn parts(r: &Ratio) -> (i64, i64) {
    (r.numerator(), r.denominator())
}

#[test]
fn new_keeps_numerator_and_denominator() {
    assert_eq!(parts(&ratio(123, 100)), (123, 100));
    assert_eq!(parts(&ratio(-7, 3)), (-7, 3));
    assert_eq!(parts(&ratio(LIMIT, LIMIT)), (LIMIT, LIMIT));
    assert_eq!(parts(&ratio(-LIMIT, 1)), (-LIMIT, 1));
}

#[test]
fn new_refuses_what_is_no_proper_fraction() {
    assert!(Ratio::new(1, 0).is_none());
    assert!(Ratio::new(1, -2).is_none());
    assert!(Ratio::new(i64::MIN, 1).is_none());
    assert!(Ratio::new(0, i64::MIN).is_none());
}

#[test]
fn from_int_is_over_one() {
    assert_eq!(parts(&Ratio::from_int(-12)), (-12, 1));
    assert_eq!(parts(&Ratio::from_int(0)), (0, 1));
}

#[test]
fn zero_and_sign() {
    assert!(ratio(0, 9).is_zero());
    assert!(!ratio(1, 9).is_zero());
    assert!(ratio(-1, 9).is_negative());
    assert!(!ratio(0, 9).is_negative());
    assert!(!ratio(1, 9).is_negative());
}

#[test]
fn same_compares_values_not_forms() {
    assert!(ratio(1, 2).same(&ratio(50, 100)));
    assert!(ratio(-3, 9).same(&ratio(-1, 3)));
    assert!(!ratio(1, 2).same(&ratio(1, 3)));
    assert!(!ratio(1, 2).same(&ratio(-1, 2)));
    assert!(ratio(LIMIT, LIMIT).same(&ratio(1, 1)));
}

#[test]
fn abs_drops_the_sign() {
    assert_eq!(parts(&ratio(-5, 4).abs()), (5, 4));
    assert_eq!(parts(&ratio(5, 4).abs()), (5, 4));
    assert_eq!(parts(&ratio(-LIMIT, 1).abs()), (LIMIT, 1));
}

#[test]
fn sum_is_in_lowest_terms() {
    let s = ratio(1, 2).checked_add(&ratio(1, 3)).unwrap();
    assert_eq!(parts(&s), (5, 6));
    let t = ratio(1, 4).checked_add(&ratio(1, 4)).unwrap();
    assert_eq!(parts(&t), (1, 2));
}

#[test]
fn difference_is_in_lowest_terms() {
    let s = ratio(1, 2).checked_sub(&ratio(1, 3)).unwrap();
    assert_eq!(parts(&s), (1, 6));
    let t = ratio(1, 3).checked_sub(&ratio(1, 2)).unwrap();
    assert_eq!(parts(&t), (-1, 6));
}

#[test]
fn product_is_in_lowest_terms() {
    let p = ratio(-2, 3).checked_mul(&ratio(5, 7)).unwrap();
    assert_eq!(parts(&p), (-10, 21));
    let q = ratio(-2, 3).checked_mul(&ratio(9, 4)).unwrap();
    assert_eq!(parts(&q), (-3, 2));
}

#[test]
fn quotient_keeps_the_denominator_positive() {
    let q = ratio(2, 3).checked_div(&ratio(5, 7)).unwrap();
    assert_eq!(parts(&q), (14, 15));
    let n = ratio(2, 3).checked_div(&ratio(-5, 7)).unwrap();
    assert_eq!(parts(&n), (-14, 15));
    let z = ratio(0, 3).checked_div(&ratio(-5, 7)).unwrap();
    assert_eq!(parts(&z), (0, 1));
}

#[test]
fn reduced_divides_by_the_greatest_common_divisor() {
    assert_eq!(parts(&ratio(50, 100).reduced()), (1, 2));
    assert_eq!(parts(&ratio(-12, 18).reduced()), (-2, 3));
    assert_eq!(parts(&ratio(0, 18).reduced()), (0, 1));
    assert_eq!(parts(&ratio(7, 3).reduced()), (7, 3));
    assert_eq!(parts(&ratio(LIMIT, LIMIT).reduced()), (1, 1));
}

#[test]
fn results_fit_where_their_lowest_terms_fit() {
    let big = ratio(LIMIT, 1);
    assert_eq!(parts(&big.checked_mul(&ratio(1, LIMIT)).unwrap()), (1, 1));
    assert_eq!(parts(&big.checked_div(&big).unwrap()), (1, 1));
    assert_eq!(parts(&ratio(1, LIMIT).checked_add(&ratio(-1, LIMIT)).unwrap()), (0, 1));
    let mut total = ratio(0, 1);
    let mut count = 0;
    while count < 1000 {
        total = total.checked_add(&ratio(123, 1000)).unwrap();
        count += 1;
    }
    assert_eq!(parts(&total), (123, 1));
}

#[test]
fn quotient_by_zero_is_none() {
    assert!(ratio(2, 3).checked_div(&ratio(0, 7)).is_none());
}

#[test]
fn results_that_do_not_fit_are_none() {
    let big = ratio(LIMIT, 1);
    let tiny = ratio(1, LIMIT);
    assert!(big.checked_add(&ratio(1, 1)).is_none());
    assert!(ratio(-LIMIT, 1).checked_sub(&ratio(1, 1)).is_none());
    assert!(big.checked_mul(&ratio(2, 1)).is_none());
    assert!(tiny.checked_mul(&ratio(1, 2)).is_none());
    assert!(tiny.checked_add(&ratio(1, 2)).is_none());
    assert!(big.checked_div(&ratio(1, 2)).is_none());
    assert!(ratio(1, 1).checked_div(&big).is_some());
    assert!(big.checked_add(&ratio(0, 1)).is_some());
}

#[test]
fn decimal_text_has_fixed_decimals() {
    assert_eq!(ratio(323, 100).to_decimal(1), "3.2");
    assert_eq!(ratio(323, 100).to_decimal(2), "3.23");
    assert_eq!(ratio(323, 100).to_decimal(5), "3.23000");
    assert_eq!(ratio(323, 100).to_decimal(0), "3");
    assert_eq!(ratio(0, 7).to_decimal(3), "0.000");
    assert_eq!(ratio(1200, 291).to_decimal(4), "4.1237");
    assert_eq!(ratio(1, 1000).to_decimal(3), "0.001");
    assert_eq!(ratio(120, 1).to_decimal(0), "120");
}

#[test]
fn decimal_text_rounds_to_nearest() {
    assert_eq!(ratio(10000, 2910).to_decimal(2), "3.44");
    assert_eq!(ratio(999, 1000).to_decimal(2), "1.00");
    assert_eq!(ratio(2, 3).to_decimal(3), "0.667");
    assert_eq!(ratio(1, 3).to_decimal(3), "0.333");
    assert_eq!(ratio(9995, 1000).to_decimal(0), "10");
}

#[test]
fn decimal_text_rounds_halves_to_even() {
    assert_eq!(ratio(1, 4).to_decimal(1), "0.2");
    assert_eq!(ratio(3, 4).to_decimal(1), "0.8");
    assert_eq!(ratio(1, 8).to_decimal(2), "0.12");
    assert_eq!(ratio(3, 8).to_decimal(2), "0.38");
    assert_eq!(ratio(1, 2).to_decimal(0), "0");
    assert_eq!(ratio(3, 2).to_decimal(0), "2");
    assert_eq!(ratio(5, 2).to_decimal(0), "2");
    assert_eq!(ratio(7, 2).to_decimal(0), "4");
}

#[test]
fn decimal_text_of_negative_numbers() {
    assert_eq!(ratio(-323, 100).to_decimal(1), "-3.2");
    assert_eq!(ratio(-1, 25).to_decimal(1), "-0.0");
    assert_eq!(ratio(-5, 2).to_decimal(0), "-2");
}

#[test]
fn decimal_text_with_many_decimals() {
    assert_eq!(ratio(1, 3).to_decimal(18), "0.333333333333333333");
    assert_eq!(ratio(2, 3).to_decimal(30), "0.666666666666666666666666666667");
    assert_eq!(ratio(LIMIT, 1).to_decimal(18), "9223372036854775807.000000000000000000");
    assert_eq!(ratio(1, LIMIT).to_decimal(18), "0.000000000000000000");
    assert_eq!(ratio(1, LIMIT).to_decimal(25), "0.0000000000000000001084202");
    assert_eq!(ratio(1, 7).to_decimal(40), "0.1428571428571428571428571428571428571429");
    let long = ratio(1, 3).to_decimal(1000);
    assert_eq!(long.len(), 1002);
    assert!(long.starts_with("0.3333"));
    assert!(long.ends_with("3333"));
}

#[test]
fn decimal_text_carries_into_the_whole_part() {
    assert_eq!(ratio(999, 1000).to_decimal(2), "1.00");
    assert_eq!(ratio(9999, 1000).to_decimal(2), "10.00");
    assert_eq!(ratio(19996, 10000).to_decimal(3), "2.000");
    assert_eq!(ratio(1995, 1000).to_decimal(2), "2.00");
    assert_eq!(ratio(1985, 1000).to_decimal(2), "1.98");
    assert_eq!(ratio(-995, 100).to_decimal(1), "-10.0");
    assert_eq!(ratio(LIMIT, 2).to_decimal(0), "4611686018427387904");
}
