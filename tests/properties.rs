use anion::{
    match_and_decode_boolean, match_and_decode_decimal, match_and_decode_float,
    match_and_decode_int, match_and_decode_string, parse_string, parse_value, AnionValue,
    DecodeError,
};
use bigdecimal::BigDecimal;
use num_bigint::BigInt;
use std::str::FromStr;

fn integer(v: i64) -> Option<AnionValue> {
    Some(AnionValue::Integer(Some(BigInt::from(v))))
}

fn float_of(value: Option<AnionValue>) -> f64 {
    match value {
        Some(AnionValue::Float(Some(text))) => text.parse::<f64>().unwrap(),
        other => panic!("not a float: {:?}", other),
    }
}

fn decimal_of(text: &str) -> BigDecimal {
    match match_and_decode_decimal(text).unwrap().unwrap().value {
        AnionValue::Decimal(Some(d)) => d,
        other => panic!("not a decimal: {:?}", other),
    }
}

fn string_of(text: &str) -> String {
    match match_and_decode_string(text).unwrap().unwrap().value {
        AnionValue::String(Some(s)) => s,
        other => panic!("not a string: {:?}", other),
    }
}

#[test]
fn underscores_do_not_change_an_integer() {
    assert_eq!(parse_string("3_141_592_6"), parse_string("31415926"));
    assert_eq!(parse_string("3_141_592_6"), integer(31415926));
    assert_eq!(parse_string("0x4_2"), parse_string("0x42"));
}

#[test]
fn leading_zeros_and_malformed_radixes_fail_whole_parse() {
    assert_eq!(parse_value("0", true), integer(0));
    assert_eq!(parse_value("00", true), None);
    assert_eq!(parse_string("00"), integer(0));
    for src in ["0x_42", "0o900", "0o190"] {
        assert_eq!(parse_value(src, true), None, "{}", src);
    }
}

#[test]
fn radix_forms_equal_their_decimal_value() {
    assert_eq!(parse_string("0x42"), parse_string("66"));
    assert_eq!(parse_string("0o42"), parse_string("34"));
    assert_eq!(parse_string("0b10101"), parse_string("21"));
    assert_eq!(parse_string("-0x10101"), parse_string("-65793"));
    assert_eq!(parse_string("+0x10"), integer(16));
    assert_eq!(parse_string("0XfF"), integer(255));
    assert_eq!(parse_string("-0o17"), integer(-15));
}

#[test]
fn big_integers_keep_every_digit() {
    let text = "123456789012345678901234567890";
    let expected = BigInt::from_str(text).unwrap();
    assert_eq!(parse_string(text), Some(AnionValue::Integer(Some(expected))));
    let hex = "0xffffffffffffffffffffffff";
    let expected = BigInt::parse_bytes(b"ffffffffffffffffffffffff", 16).unwrap();
    assert_eq!(parse_string(hex), Some(AnionValue::Integer(Some(expected))));
}

#[test]
fn floats_decode_to_their_double() {
    assert_eq!(float_of(parse_string("-12.21e1")), -122.1);
    assert_eq!(float_of(parse_string("1e3")), 1000.0);
    assert_eq!(float_of(parse_string(".5E-1")), 0.05);
    assert_eq!(float_of(parse_string("+0.e0")), 0.0);
    assert_eq!(
        parse_string("2.5e+2"),
        Some(AnionValue::Float(Some(String::from("2.5e+2"))))
    );
}

#[test]
fn bare_fractions_are_not_dispatched() {
    assert_eq!(parse_value(".012", false), None);
    assert_eq!(parse_value("+.0", false), None);
    assert_eq!(decimal_of(".012"), BigDecimal::from_str("0.012").unwrap());
    assert_eq!(decimal_of("+.0"), BigDecimal::from_str("0.0").unwrap());
}

#[test]
fn decimals_are_exact() {
    let tenth = decimal_of("1d-1");
    assert_eq!(tenth, BigDecimal::from_str("0.1").unwrap());
    assert_eq!(tenth.as_bigint_and_exponent(), (BigInt::from(1), 1));
    let d = decimal_of(".012");
    assert_eq!(d.as_bigint_and_exponent(), (BigInt::from(12), 3));
    assert_eq!(decimal_of("1.10").as_bigint_and_exponent(), (BigInt::from(110), 2));
    assert_eq!(decimal_of("-5.D+2").as_bigint_and_exponent(), (BigInt::from(-5), -2));
    assert!(match_and_decode_decimal("-5D+2").unwrap().is_none());
    assert_eq!(
        match_and_decode_decimal("null.decimal").unwrap().unwrap().value,
        AnionValue::Decimal(None)
    );
}

#[test]
fn decimal_exponent_out_of_range_is_an_error() {
    let text = "1d999999999999999999999999999999999999999999";
    assert_eq!(match_and_decode_decimal(text).err(), Some(DecodeError::DecimalOutOfRange));
    let text = "1d-9223372036854775808";
    assert_eq!(match_and_decode_decimal(text).err(), Some(DecodeError::DecimalOutOfRange));
    assert!(match_and_decode_decimal("1d-9223372036854775807").is_ok());
    assert!(match_and_decode_decimal("1d9223372036854775808").is_ok());
}

#[test]
fn strings_are_unescaped() {
    assert_eq!(string_of("\"a\\NLb\""), "ab");
    assert_eq!(string_of("\"a\\nb\""), "a\nb");
    assert_eq!(
        string_of("\"\\a\\b\\t\\n\\f\\r\\v\\0\\\\\\\"\\/\\?\""),
        "\u{7}\u{8}\t\n\u{c}\r\u{b}\0\\\"/?"
    );
    assert_eq!(string_of("\"\\x41\\u00e9\\U0001F600\""), "A\u{e9}\u{1F600}");
    assert_eq!(string_of("\"caf\u{e9}\""), "caf\u{e9}");
}

#[test]
fn invalid_code_points_are_errors() {
    let surrogate = "\"\\uD800\"";
    assert_eq!(match_and_decode_string(surrogate).err(), Some(DecodeError::InvalidCodePoint));
    let too_big = "\"\\U00110000\"";
    assert_eq!(match_and_decode_string(too_big).err(), Some(DecodeError::InvalidCodePoint));
}

#[test]
fn malformed_strings_do_not_match() {
    for src in ["", "a", "\"abc", "\"a\\qb\"", "\"\\x4\"", "\"\\u12\""] {
        assert!(match_and_decode_string(src).unwrap().is_none(), "{}", src);
    }
    let lexed = match_and_decode_string("\"\u{e9}\" rest").unwrap().unwrap();
    assert_eq!(lexed.len, 3);
    assert!(!lexed.consumes_all("\"\u{e9}\" rest"));
}

#[test]
fn float_rule_comes_before_integer() {
    assert_eq!(parse_value("1.0", true), None);
    assert!(matches!(parse_string("1.0e0"), Some(AnionValue::Float(Some(_)))));
    assert!(matches!(parse_string("10e2"), Some(AnionValue::Float(Some(_)))));
    assert_eq!(parse_value("1.0", false), integer(1));
}

#[test]
fn nulls_are_typed() {
    assert_eq!(parse_string("null.bool"), Some(AnionValue::Boolean(None)));
    assert_eq!(parse_string("null.int"), Some(AnionValue::Integer(None)));
    assert_eq!(parse_string("null.float"), Some(AnionValue::Float(None)));
    assert_ne!(parse_string("null.int"), parse_string("null.float"));
    assert_eq!(parse_string("null"), None);
}

#[test]
fn booleans_decode() {
    assert_eq!(parse_string("true"), Some(AnionValue::Boolean(Some(true))));
    assert_eq!(parse_string("false"), Some(AnionValue::Boolean(Some(false))));
    assert_eq!(parse_value("trueish", true), None);
    let lexed = match_and_decode_boolean("false").unwrap();
    assert_eq!(lexed.len, 5);
    assert!(match_and_decode_boolean("True").is_none());
}

#[test]
fn nothing_matches_gives_no_value() {
    assert_eq!(parse_string(""), None);
    assert_eq!(parse_string("abc"), None);
    assert_eq!(parse_string("\"text\""), None);
    assert!(match_and_decode_float("12").is_none());
    assert!(match_and_decode_int("x").is_none());
}

#[test]
fn equivalent_integers_decode_equal() {
    let group = ["66", "0x42", "0X4_2", "0o102", "0b100_0010", "+0x42"];
    for a in group.iter() {
        for b in group.iter() {
            let x = match_and_decode_int(a).unwrap().value;
            let y = match_and_decode_int(b).unwrap().value;
            assert_eq!(x, y, "{} {}", a, b);
        }
    }
}

#[test]
fn equivalent_decimals_decode_equal() {
    let group = ["0.1", "1d-1", "1.0d-1", "0.01d1", ".1", "+0.10"];
    for a in group.iter() {
        for b in group.iter() {
            assert_eq!(decimal_of(a), decimal_of(b), "{} {}", a, b);
        }
    }
}

#[test]
fn equivalent_floats_decode_equal() {
    let group = ["1.0e0", "1e0", "10e-1", "0.1e1", ".01E2"];
    for a in group.iter() {
        for b in group.iter() {
            let x = float_of(match_and_decode_float(a).map(|l| l.value));
            let y = float_of(match_and_decode_float(b).map(|l| l.value));
            assert_eq!(x, y, "{} {}", a, b);
        }
    }
}
