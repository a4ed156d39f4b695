use rds_proxy::postgres_wire::length_claim_fits;
use rds_proxy::text::{decimal_text, same_text};
use rds_proxy::wire::find_nul;

#[test]
fn decimal_numbers() {
    assert_eq!(decimal_text(0), "0");
    assert_eq!(decimal_text(9), "9");
    assert_eq!(decimal_text(10), "10");
    assert_eq!(decimal_text(5432), "5432");
    assert_eq!(decimal_text(u64::MAX), "18446744073709551615");
}

#[test]
fn texts_are_compared_as_a_whole() {
    assert!(same_text("", ""));
    assert!(same_text("jürgen", "jürgen"));
    assert!(!same_text("jürgen", "jurgen"));
    assert!(!same_text("abc", "abcd"));
    assert!(!same_text("abcd", "abc"));
    assert!(!same_text("abc", "abd"));
}

#[test]
fn first_zero_byte() {
    assert_eq!(find_nul(b""), None);
    assert_eq!(find_nul(b"abc"), None);
    assert_eq!(find_nul(b"\0abc"), Some(0));
    assert_eq!(find_nul(b"ab\0c\0"), Some(2));
}

#[test]
fn claimed_lengths() {
    assert!(length_claim_fits(b""));
    assert!(length_claim_fits(b"R\0\0\0"));
    assert!(length_claim_fits(b"R\0\0\0\x08"));
    assert_eq!(length_claim_fits(b"R\xFF\xFF\xFF\xFF"), usize::BITS > 32);
}
