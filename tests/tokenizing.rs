use specmc_protocol::base::IntegerType;
use specmc_protocol::number::{float_text, int_to_text, parse_isize, parse_u32, parse_usize};
use specmc_protocol::tokenize::tokenize;

#[test]
fn tokenize_splits_symbols_and_drops_whitespace() {
    assert_eq!(tokenize("List[u8; 42]"), vec!["List", "[", "u8", ";", "42", "]"]);
    let tokens = tokenize(" a\t==b\r\n!=c&&d||e**f(g){h},i=j ");
    assert_eq!(
        tokens,
        vec![
            "a", "==", "b", "!=", "c", "&&", "d", "||", "e", "**", "f", "(", "g", ")", "{", "h",
            "}", ",", "i", "=", "j"
        ]
    );
    for t in &tokens {
        assert!(!t.is_empty() && !t.contains(char::is_whitespace));
    }
}

#[test]
fn tokenize_keeps_negative_numbers_and_other_text_whole() {
    assert_eq!(tokenize("x = -123 !ok"), vec!["x", "=", "-123", "!ok"]);
    assert_eq!(tokenize("é→ü"), vec!["é→ü"]);
    assert!(tokenize("").is_empty());
    assert!(tokenize(" \t\r\n").is_empty());
}

#[test]
fn integer_type_ranges() {
    assert!(IntegerType::U8.check(0) && IntegerType::U8.check(255));
    assert!(!IntegerType::U8.check(-1) && !IntegerType::U8.check(256));
    assert!(IntegerType::I8.check(-128) && !IntegerType::I8.check(128));
    assert!(IntegerType::U16.check(65535) && !IntegerType::U16.check(65536));
    assert!(IntegerType::I16.check(-32768) && !IntegerType::I16.check(-32769));
    assert!(IntegerType::U32.check(4294967295) && !IntegerType::U32.check(4294967296));
    assert!(IntegerType::I32.check(-2147483648) && !IntegerType::I32.check(2147483648));
    assert!(IntegerType::VarInt.check(2147483647) && !IntegerType::VarInt.check(-2147483649));
    assert!(IntegerType::U64.check(isize::MAX) && !IntegerType::U64.check(-1));
    assert!(IntegerType::I64.check(isize::MIN) && IntegerType::VarLong.check(isize::MAX));
    assert_eq!(*IntegerType::U64.range().end(), u64::MAX as i128);
    assert_eq!(*IntegerType::I16.range().start(), -32768);
}

#[test]
fn integer_literals_follow_rust_syntax() {
    assert_eq!(parse_isize("0x42"), Some(66));
    assert_eq!(parse_isize("-0b1010"), Some(-10));
    assert_eq!(parse_isize("+0o17"), Some(15));
    assert_eq!(parse_isize("1_000"), Some(1000));
    assert_eq!(parse_isize("_1"), None);
    assert_eq!(parse_isize("0x_1"), Some(1));
    assert_eq!(parse_isize("0X1"), None);
    assert_eq!(parse_isize("42.0"), None);
    assert_eq!(parse_isize(""), None);
    assert_eq!(parse_u32("-0"), None);
    assert_eq!(parse_u32("4294967295"), Some(u32::MAX));
    assert_eq!(parse_u32("4294967296"), None);
    assert_eq!(parse_usize("0x10"), Some(16));
}

#[test]
fn float_literals_follow_rust_syntax() {
    for t in ["1.5", "42.0", "1.", ".5", "1e3", "-2.5E-3", "+inf", "NaN", "Infinity", "7"] {
        assert!(float_text(t), "{}", t);
        assert!(t.parse::<f64>().is_ok(), "{}", t);
    }
    for t in [".", "e3", "1e", "1_0.0", "0x1.0", "in", "1.5.2", ""] {
        assert!(!float_text(t), "{}", t);
        assert!(t.parse::<f64>().is_err(), "{}", t);
    }
}

#[test]
fn integers_print_in_decimal() {
    assert_eq!(int_to_text(0), "0");
    assert_eq!(int_to_text(256), "256");
    assert_eq!(int_to_text(-123), "-123");
    assert_eq!(int_to_text(i64::MAX as i128 + 1), "9223372036854775808");
}
