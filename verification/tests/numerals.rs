use hack_toolchain::numeral::{digit, parse_decimal, push_binary, push_decimal};

fn decimal(n: usize) -> String {
    let mut text = String::from(">");
    push_decimal(&mut text, n);
    text
}

fn binary(n: usize, width: usize) -> String {
    let mut text = vec![b'>'];
    push_binary(&mut text, n, width);
    String::from_utf8(text).unwrap()
}

fn parse(text: &str) -> Option<usize> {
    parse_decimal(&text.chars().collect())
}

#[test]
fn digits_are_the_ten_characters() {
    let digits: String = (0..10).map(digit).collect();
    assert_eq!(digits, "0123456789");
}

#[test]
fn decimal_numerals_have_no_leading_zeros() {
    assert_eq!(decimal(0), ">0");
    assert_eq!(decimal(7), ">7");
    assert_eq!(decimal(10), ">10");
    assert_eq!(decimal(32767), ">32767");
    assert_eq!(decimal(1000000), ">1000000");
    assert_eq!(decimal(usize::MAX), format!(">{}", usize::MAX));
}

#[test]
fn binary_numerals_are_padded_to_their_width() {
    assert_eq!(binary(0, 15), ">000000000000000");
    assert_eq!(binary(5, 3), ">101");
    assert_eq!(binary(5, 7), ">0000101");
    assert_eq!(binary(0, 1), ">0");
    assert_eq!(binary(1, 0), ">1");
    assert_eq!(binary(0, 0), ">0");
}

#[test]
fn binary_numerals_grow_beyond_their_width() {
    assert_eq!(binary(8, 3), ">1000");
    assert_eq!(binary(32768, 15), ">1000000000000000");
}

#[test]
fn decimal_numerals_are_read_back() {
    assert_eq!(parse("0"), Some(0));
    assert_eq!(parse("007"), Some(7));
    assert_eq!(parse("32767"), Some(32767));
    assert_eq!(parse(&format!("{}", usize::MAX)), Some(usize::MAX));
    assert_eq!(parse(&format!("000{}", usize::MAX)), Some(usize::MAX));
}

#[test]
fn what_is_no_numeral_is_not_read() {
    assert_eq!(parse(""), None);
    assert_eq!(parse("+5"), None);
    assert_eq!(parse("-5"), None);
    assert_eq!(parse("5 "), None);
    assert_eq!(parse("1a"), None);
    assert_eq!(parse("١٢"), None);
}

#[test]
fn numerals_beyond_the_machine_word_are_not_read() {
    let beyond = format!("{}", usize::MAX as u128 + 1);
    assert_eq!(parse(&beyond), None);
    assert_eq!(parse(&format!("{}0", usize::MAX)), None);
    assert_eq!(parse("340282366920938463463374607431768211456"), None);
    assert_eq!(parse("99999999999999999999999999999999999999999999x"), None);
}

#[test]
fn every_number_is_read_back_from_its_numeral() {
    for n in [0usize, 1, 9, 10, 99, 100, 255, 256, 4095, 65535, 65536, 123456789] {
        let mut text = String::new();
        push_decimal(&mut text, n);
        assert_eq!(parse(&text), Some(n));
    }
}
