use sketches::numbers::{Digit, Integer};

#[test]
fn parses_and_writes_back() {
    let y = Integer::<2>::from_str("-1").ok().unwrap();
    assert_eq!(y.string(), "-1");
    assert_eq!(Integer::<1>::from_str("0").ok().unwrap().string(), "0");
    assert_eq!(Integer::<4>::from_str("9051").ok().unwrap().string(), "9051");
    assert_eq!(Integer::<3>::from_str("-70").ok().unwrap().string(), "-70");
}

#[test]
fn too_many_digits() {
    assert_eq!(Integer::<3>::from_str("1234").err(), Some("Too many digits"));
    assert_eq!(Integer::<1>::from_str("ab").err(), Some("Too many digits"));
}

#[test]
fn rejected_forms() {
    assert_eq!(Integer::<2>::from_str("-0").err(), Some("Zero cannot be negative"));
    assert_eq!(Integer::<1>::from_str("-").err(), Some("NULL cannot be negative"));
    assert_eq!(Integer::<0>::from_str("").err(), Some("No digits"));
    assert_eq!(Integer::<2>::from_str("01").err(), Some("Leading zero"));
    assert_eq!(Integer::<3>::from_str("-05").err(), Some("Leading zero"));
    assert_eq!(Integer::<3>::from_str("12-").err(), Some("Expected digit found '-'."));
}

#[test]
fn a_sign_after_the_first_place_is_refused() {
    assert_eq!(Integer::<3>::from_str("1-2").err(), Some("Expected digit found '-'."));
    assert_eq!(Integer::<4>::from_str("-1-2").err(), Some("Expected digit found '-'."));
    assert_eq!(Integer::<3>::from_str("--1").err(), Some("Expected digit found '-'."));
    assert_eq!(
        Integer::from([Digit::One, Digit::Negative, Digit::Two]).err(),
        Some("Expected digit found '-'.")
    );
}

#[test]
fn from_digits() {
    let i = Integer::from([Digit::Four, Digit::Two]).ok().unwrap();
    assert_eq!(i.string(), "42");
    assert_eq!(Integer::from([Digit::Zero, Digit::Two]).err(), Some("Leading zero"));
    assert_eq!(Integer::from([Digit::Negative, Digit::Zero]).err(), Some("Zero cannot be negative"));
}

#[test]
fn digit_characters() {
    assert_eq!(Digit::from_char('7'), Ok(Digit::Seven));
    assert_eq!(Digit::from_char('-'), Ok(Digit::Negative));
    assert_eq!(Digit::from_char('a'), Err("Expected digit, found 'a'.".to_string()));
    assert_eq!(Digit::Nine.to_char(), '9');
    assert_eq!(Digit::Negative.to_char(), '-');
    for c in "-0123456789".chars() {
        assert_eq!(Digit::from_char(c).unwrap().to_char(), c);
    }
}
