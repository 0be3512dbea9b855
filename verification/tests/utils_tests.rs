//! Scanner primitive behaviour.

use nara::error::Error;
use nara::utils::{
    extract_digits, extract_float, extract_ident, extract_paranthesis, extract_params,
    extract_semicolon, extract_semicolon_restrict, extract_whitespace,
    extract_whitespace_restrict, tag, trim,
};

#[test]
fn extract_spaces() {
    assert_eq!(extract_whitespace("\n   \n  1"), ("1", "\n   \n  "))
}

#[test]
fn extract_spaces_restrict() {
    assert_eq!(extract_whitespace_restrict(" x"), Ok(("x", " ")))
}

#[test]
fn extract_alphabetic_ident() {
    assert_eq!(extract_ident("abcdEFGH stop"), Ok((" stop", "abcdEFGH")))
}

#[test]
fn extract_alphanumeric_ident() {
    assert_eq!(extract_ident("foobar()"), Ok(("()", "foobar")))
}

#[test]
fn cannot_extract_ident_beginning_with_number() {
    assert_eq!(extract_ident("123abc"), Err(Error::ExpectedIdentifier));
    assert_eq!(Error::ExpectedIdentifier.message(), "expected identifier");
}

#[test]
fn tag_word() {
    assert_eq!(tag("val", "val x"), Ok(" x"))
}

#[test]
fn extract_one_digit() {
    assert_eq!(extract_digits("1+2"), Ok(("+2", "1")));
}

#[test]
fn extract_multiple_digits() {
    assert_eq!(extract_digits("10-20"), Ok(("-20", "10")));
}

#[test]
fn do_not_extract_digits_when_input_is_invalid() {
    assert_eq!(extract_digits("abcd"), Err(Error::ExpectedDigits));
    assert_eq!(Error::ExpectedDigits.message(), "expected digits");
}

#[test]
fn extract_digits_with_no_remainder() {
    assert_eq!(extract_digits("100"), Ok(("", "100")));
}

#[test]
fn do_not_extract_spaces1_when_input_does_not_start_with_them() {
    assert_eq!(extract_whitespace_restrict("blah"), Err(Error::ExpectedWhitespace));
    assert_eq!(Error::ExpectedWhitespace.message(), "expected whitespace");
}

#[test]
fn extract_parenthesised_span() {
    assert_eq!(extract_paranthesis("(a, b) rest"), Ok(("rest", "a, b")));
    assert_eq!(extract_paranthesis("a)"), Err(Error::ExpectedOpeningParen));
    assert_eq!(extract_paranthesis("(a"), Err(Error::ExpectedClosingParen));
}

#[test]
fn extract_params_splits_and_trims() {
    let (rem, params) = extract_params("( a , b2 ,, ) {").unwrap();
    assert_eq!(rem, "{");
    assert_eq!(params, vec!["a".to_string(), "b2".to_string()]);
}

#[test]
fn extract_semicolon_is_optional() {
    assert_eq!(extract_semicolon(";  x"), ("x", ";"));
    assert_eq!(extract_semicolon("x"), ("x", ""));
    assert_eq!(extract_semicolon_restrict("x"), Err(Error::ExpectedSemicolon));
}

#[test]
fn extract_float_takes_both_digit_runs() {
    assert_eq!(extract_float("3.14 rest"), Ok((" rest", "3.14".to_string())));
    assert_eq!(extract_float("3"), Err(Error::ExpectedDecimalPoint));
    assert_eq!(Error::ExpectedDecimalPoint.message(), "expected decimal point");
    assert_eq!(extract_float("3."), Err(Error::ExpectedDigitsAfterDecimalPoint));
    assert_eq!(extract_float(".5"), Err(Error::ExpectedDigits));
}

#[test]
fn trim_strips_both_ends() {
    assert_eq!(trim("  a b\t "), "a b");
}
