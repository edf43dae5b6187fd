use fumie::lexer::chars::string_of;
use fumie::lexer::number::parse_i64;

fn chars(text: &str) -> Vec<char> {
    text.chars().collect()
}

#[test]
fn parse_reads_plain_digits() {
    assert_eq!(parse_i64(&chars("0")), Some(0));
    assert_eq!(parse_i64(&chars("42")), Some(42));
    assert_eq!(parse_i64(&chars("0042")), Some(42));
    assert_eq!(parse_i64(&chars("1234567890123")), Some(1234567890123));
}

#[test]
fn parse_takes_one_sign() {
    assert_eq!(parse_i64(&chars("+12")), Some(12));
    assert_eq!(parse_i64(&chars("-12")), Some(-12));
    assert_eq!(parse_i64(&chars("-0")), Some(0));
    assert_eq!(parse_i64(&chars("--1")), None);
    assert_eq!(parse_i64(&chars("+-1")), None);
    assert_eq!(parse_i64(&chars("1-")), None);
}

#[test]
fn parse_refuses_what_has_no_digit() {
    assert_eq!(parse_i64(&chars("")), None);
    assert_eq!(parse_i64(&chars("+")), None);
    assert_eq!(parse_i64(&chars("-")), None);
}

#[test]
fn parse_refuses_other_characters() {
    assert_eq!(parse_i64(&chars("12a")), None);
    assert_eq!(parse_i64(&chars("a12")), None);
    assert_eq!(parse_i64(&chars("1 2")), None);
    assert_eq!(parse_i64(&chars("1_000")), None);
    assert_eq!(parse_i64(&chars("٣")), None);
    assert_eq!(parse_i64(&chars("99999999999999999999x")), None);
}

#[test]
fn parse_goes_to_both_ends_of_the_range() {
    assert_eq!(parse_i64(&chars("9223372036854775807")), Some(i64::MAX));
    assert_eq!(parse_i64(&chars("9223372036854775808")), None);
    assert_eq!(parse_i64(&chars("-9223372036854775808")), Some(i64::MIN));
    assert_eq!(parse_i64(&chars("-9223372036854775809")), None);
    assert_eq!(parse_i64(&chars("18446744073709551616")), None);
    assert_eq!(parse_i64(&chars("340282366920938463463374607431768211456")), None);
    assert_eq!(parse_i64(&chars("-340282366920938463463374607431768211456")), None);
    assert_eq!(parse_i64(&chars("0000000000000000000009223372036854775807")), Some(i64::MAX));
}

#[test]
fn parse_agrees_with_the_standard_library() {
    let samples = [
        "", "0", "7", "+7", "-7", "12345", "-12345", "9223372036854775807",
        "9223372036854775808", "-9223372036854775808", "-9223372036854775809", "1e3", " 1", "1 ",
        "+", "-", "++1", "0x10", "٣", "000", "-000", "92233720368547758070",
    ];
    for text in samples {
        assert_eq!(parse_i64(&chars(text)), text.parse::<i64>().ok());
    }
}

#[test]
fn string_of_keeps_every_character_in_order() {
    assert_eq!(string_of(&chars("")), "");
    assert_eq!(string_of(&chars("abc")), "abc");
    assert_eq!(string_of(&chars("a\"b\n ü名")), "a\"b\n ü名");
}
