use anion::{
    match_and_decode_decimal, match_and_decode_float, match_and_decode_int,
    match_and_decode_string, AnionValue,
};
use bigdecimal::BigDecimal;
use num_bigint::BigInt;
use std::str::FromStr;

#[test]
fn test_strs_to_ints_works() {
    let cases: [(&str, i64); 12] = [
        ("42", 42),
        ("0", 0),
        ("-1000", -1000),
        ("3_141_592_6", 31415926),
        ("-101010101", -101010101),
        ("0x42", 66),
        ("-0x10101", -65793),
        ("0o42", 34),
        ("0o1010_1", 4161),
        ("0b10101", 21),
        ("0b10_10", 10),
        ("0b1101_1111_0101", 3573),
    ];
    for &(src, ex) in cases.iter() {
        let lexed = match_and_decode_int(src).expect(src);
        assert_eq!(lexed.value, AnionValue::Integer(Some(BigInt::from(ex))));
        assert!(lexed.consumes_all(src));
    }
}

#[test]
fn test_strs_not_ints() {
    let cases = ["_42", "a", "-_90", "3_1__41", "12_", "00", "0x_42", "0o900", "0o190"];
    for &src in cases.iter() {
        match match_and_decode_int(src) {
            Some(lexed) => assert!(!lexed.consumes_all(src), "{}", src),
            None => (),
        }
    }
}

#[test]
fn float_test() {
    let src = "-12.21e1";
    let lexed = match_and_decode_float(src).unwrap();
    assert!(lexed.consumes_all(src));
    match lexed.value {
        AnionValue::Float(Some(text)) => assert_eq!(text.parse::<f64>().unwrap(), -122.1),
        other => panic!("{:?}", other),
    }
}

#[test]
fn decimal_test() {
    let cases = [
        ("1.0", "1.0"),
        ("0.", "0.0"),
        ("0.0", "0.0"),
        (".0", "0.0"),
        ("-.0", "0.0"),
        ("+.0", "0.0"),
        (".012", "0.012"),
        ("42.", "42.0"),
        ("0.25", "0.25"),
        ("+3.1415", "3.1415"),
        ("-12.21", "-12.21"),
        ("1d-1", "0.1"),
    ];
    for &(src, ex) in cases.iter() {
        let lexed = match_and_decode_decimal(src).unwrap().expect(src);
        let expected = AnionValue::Decimal(Some(BigDecimal::from_str(ex).unwrap()));
        assert_eq!(lexed.value, expected);
        assert!(lexed.consumes_all(src));
    }
}

#[test]
fn string_test() {
    let cases = [("\"\"", ""), ("\"a\"", "a"), ("\"a\\NLb\"", "ab"), ("\"a\\nb\"", "a\nb")];
    for &(src, ex) in cases.iter() {
        let lexed = match_and_decode_string(src).unwrap().expect(src);
        assert_eq!(lexed.value, AnionValue::String(Some(String::from(ex))));
        assert!(lexed.consumes_all(src));
    }
}
