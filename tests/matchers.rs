use ffirs_commands::matchers::{
    ExactMatcher, FragMatcher, NodeMatcher, SignedMatcher, UnsignedMatcher, UserIdMatcher,
};
use ffirs_commands::type_identity::TypeIdentity;

#[test]
fn test_matcher_exact() {
    let matcher = ExactMatcher::new(String::from("a word"));

    assert!(matcher.matches("a word"));
    assert!(!matcher.matches("a word "));
    assert!(!matcher.matches("nope"));
}

#[test]
fn test_matcher_exact2() {
    let matcher = ExactMatcher::new(String::from("12hey"));

    assert!(matcher.matches("12hey"));
    assert!(!matcher.matches("12"));
    assert!(!matcher.matches("hey"));
    assert!(!matcher.matches("12 hey"));
}

#[test]
fn test_matcher_user_id() {
    let matcher = UserIdMatcher::default();

    assert!(matcher.matches("<@123>"));
    assert!(matcher.matches("<@!123>"));

    assert!(!matcher.matches("<@abc>"));
    assert!(!matcher.matches("<@123"));
    assert!(!matcher.matches("<123>"));
    assert!(!matcher.matches("123"));
}

#[test]
fn test_matcher_signed() {
    let matcher = SignedMatcher;

    assert!(matcher.matches("12"));
    assert!(matcher.matches("-12"));
    assert!(!matcher.matches("-12a"));
    assert!(!matcher.matches("a"));
    assert!(!matcher.matches("a12"));
}

#[test]
fn test_matcher_unsigned() {
    let matcher = UnsignedMatcher;

    assert!(matcher.matches("12"));
    assert!(!matcher.matches("-12"));
    assert!(!matcher.matches("-12a"));
    assert!(!matcher.matches("a"));
    assert!(!matcher.matches("a12"));
}

#[test]
fn signed_matcher_rejects_lone_minus() {
    assert!(!SignedMatcher.matches("-"));
    assert!(!SignedMatcher.matches(""));
    assert!(!SignedMatcher.matches("--1"));
    assert!(SignedMatcher.matches("-0"));
}

#[test]
fn unsigned_matcher_rejects_empty_and_non_ascii_digits() {
    assert!(!UnsignedMatcher.matches(""));
    assert!(!UnsignedMatcher.matches("\u{0663}"));
    assert!(UnsignedMatcher.matches("007"));
}

#[test]
fn mention_matcher_needs_exact_shape() {
    let matcher = UserIdMatcher::default();
    assert!(!matcher.matches("<@>"));
    assert!(!matcher.matches("<@!>"));
    assert!(!matcher.matches("x<@123>"));
    assert!(!matcher.matches("<@123>y"));
    assert!(!matcher.matches("<@!!1>"));
}

#[test]
fn matcher_type_identities() {
    assert_eq!(ExactMatcher::new(String::from("x")).fragment_type_id(), TypeIdentity::Unit);
    assert_eq!(UnsignedMatcher.fragment_type_id(), TypeIdentity::U64);
    assert_eq!(SignedMatcher.fragment_type_id(), TypeIdentity::I64);
    assert_eq!(UserIdMatcher::default().fragment_type_id(), TypeIdentity::User);
    assert_eq!(NodeMatcher::exact("x").fragment_type_id(), TypeIdentity::Unit);
    assert_eq!(NodeMatcher::Signed(SignedMatcher).fragment_type_id(), TypeIdentity::I64);
}

#[test]
fn exact_matcher_equality() {
    assert_eq!(ExactMatcher::new(String::from("a")), ExactMatcher::new(String::from("a")));
    assert_ne!(ExactMatcher::new(String::from("a")), ExactMatcher::new(String::from("b")));
    assert!(NodeMatcher::exact("a").same_config(&NodeMatcher::exact("a")));
    assert!(!NodeMatcher::exact("a").same_config(&NodeMatcher::Signed(SignedMatcher)));
}
