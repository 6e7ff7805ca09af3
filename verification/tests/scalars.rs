use maths_rs::vec::{Number, SignedNumber};

#[test]
fn zero_and_one_are_the_identities() {
    assert_eq!(<i32 as Number>::zero(), 0);
    assert_eq!(<i32 as Number>::one(), 1);
    assert_eq!(<u8 as Number>::zero(), 0u8);
    assert_eq!(<u64 as Number>::one(), 1u64);
    let x: i16 = -321;
    assert_eq!(Number::add(<i16 as Number>::zero(), x), x);
    assert_eq!(Number::mul(<i16 as Number>::one(), x), x);
}

#[test]
fn minus_one_is_the_negation_of_one() {
    assert_eq!(<i8 as SignedNumber>::minus_one(), -1i8);
    assert_eq!(<i64 as SignedNumber>::minus_one(), SignedNumber::neg(<i64 as Number>::one()));
    assert_eq!(SignedNumber::neg(17i32), -17);
}

#[test]
fn scalar_arithmetic_is_exact() {
    assert_eq!(Number::add(100i8, 27i8), 127i8);
    assert_eq!(Number::sub(-100i8, 28i8), -128i8);
    assert_eq!(Number::mul(16u8, 15u8), 240u8);
    assert_eq!(Number::sub(7u32, 7u32), 0u32);
    assert_eq!(Number::mul(-3i64, 5i64), -15i64);
}

#[test]
fn division_rounds_toward_zero() {
    assert_eq!(Number::div(7i32, 2i32), 3);
    assert_eq!(Number::div(-7i32, 2i32), -3);
    assert_eq!(Number::div(7i32, -2i32), -3);
    assert_eq!(Number::div(-7i32, -2i32), 3);
    assert_eq!(Number::div(-128i8, 1i8), -128i8);
    assert_eq!(Number::div(255u8, 16u8), 15u8);
    assert_eq!(Number::div(0u16, 9u16), 0u16);
}

#[test]
fn comparisons_are_exact() {
    assert!(Number::less(-1i32, 0i32));
    assert!(!Number::less(3u8, 3u8));
    assert!(Number::equal(3u8, 3u8));
    assert!(!Number::equal(i64::MIN, i64::MAX));
    assert!(Number::less(i64::MIN, i64::MAX));
}
