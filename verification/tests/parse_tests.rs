use jsompiler::error::ErrorKind;
use jsompiler::{JParser, JValue, Json, VKind};

fn parse(s: &str) -> Result<Json, jsompiler::error::ParseError> {
    let mut p = JParser::default();
    p.parse(s.as_bytes().to_vec())
}

fn int_of(d: &Json) -> i64 {
    match &d.value {
        JValue::Int(VKind::Lit(v)) => *v,
        other => panic!("expected an integer literal, got {:?}", std::mem::discriminant(other)),
    }
}

fn err_kind(s: &str) -> ErrorKind {
    parse(s).err().expect("expected a parse failure").kind
}

#[test]
fn test_int_zero() {
    let d = parse("0").unwrap();
    assert_eq!(int_of(&d), 0);
    assert_eq!(d.pos, 0);
    assert_eq!(d.ln, 1);
}

#[test]
fn test_leading_zero_two_zeros() {
    assert_eq!(err_kind("00"), ErrorKind::LeadingZero);
}

#[test]
fn test_leading_zero_zero_one() {
    assert_eq!(err_kind("01"), ErrorKind::LeadingZero);
}

#[test]
fn test_negative_zero() {
    assert_eq!(int_of(&parse("-0").unwrap()), 0);
}

#[test]
fn test_missing_fraction_digit() {
    assert_eq!(err_kind("1."), ErrorKind::MissingFractionDigit);
}

#[test]
fn test_missing_exponent_digit() {
    assert_eq!(err_kind("1e"), ErrorKind::MissingExponentDigit);
}

#[test]
fn test_float_kept_as_lexeme() {
    let d = parse("1.5e10").unwrap();
    match &d.value {
        JValue::Float(VKind::Lit(lex)) => assert_eq!(lex, b"1.5e10"),
        _ => panic!("expected a float literal"),
    }
}

#[test]
fn test_int_max() {
    assert_eq!(int_of(&parse("9223372036854775807").unwrap()), i64::MAX);
}

#[test]
fn test_int_min() {
    assert_eq!(int_of(&parse("-9223372036854775808").unwrap()), i64::MIN);
}

#[test]
fn test_integer_overflow_not_promoted() {
    assert_eq!(err_kind("92233720368547758071"), ErrorKind::IntegerOverflow);
}

#[test]
fn test_unicode_escape() {
    let d = parse("\"a\\u0041b\"").unwrap();
    match &d.value {
        JValue::Str(VKind::Lit(s)) => assert_eq!(s, b"aAb"),
        _ => panic!("expected a string literal"),
    }
}

#[test]
fn test_surrogate_code_point_rejected() {
    assert_eq!(err_kind("\"\\ud800\""), ErrorKind::InvalidUnicodeCodePoint);
}

#[test]
fn test_invalid_escape() {
    assert_eq!(err_kind("\"\\x\""), ErrorKind::InvalidEscape);
}

#[test]
fn test_invalid_hex_digit() {
    assert_eq!(err_kind("\"\\u00g1\""), ErrorKind::InvalidHexDigit);
}

#[test]
fn test_raw_tab_in_string() {
    assert_eq!(err_kind("\"a\tb\""), ErrorKind::InvalidControlCharacter);
}

#[test]
fn test_unterminated_string() {
    assert_eq!(err_kind("\"abc"), ErrorKind::UnterminatedString);
}

#[test]
fn test_missing_opening_quote_via_number_start() {
    assert_eq!(err_kind("x"), ErrorKind::SyntaxError);
}

#[test]
fn test_array_in_order() {
    let d = parse("[1,2,3]").unwrap();
    match &d.value {
        JValue::Array(VKind::Lit(a)) => {
            assert_eq!(a.len(), 3);
            assert_eq!(int_of(&a[0]), 1);
            assert_eq!(int_of(&a[1]), 2);
            assert_eq!(int_of(&a[2]), 3);
        },
        _ => panic!("expected an array literal"),
    }
}

#[test]
fn test_trailing_comma_in_array() {
    assert_eq!(err_kind("[1,2,]"), ErrorKind::InvalidArraySeparator);
}

#[test]
fn test_invalid_array_separator() {
    assert_eq!(err_kind("[1;2]"), ErrorKind::InvalidArraySeparator);
}

#[test]
fn test_object_keys_in_insertion_order() {
    let d = parse("{\"a\":1,\"b\":2}").unwrap();
    match &d.value {
        JValue::Object(VKind::Lit(o)) => {
            assert_eq!(o.len(), 2);
            let first = o.get_index(0).unwrap();
            assert_eq!(first.0, b"a");
            assert_eq!(int_of(&first.1), 1);
            let second = o.get_index(1).unwrap();
            assert_eq!(second.0, b"b");
            assert_eq!(int_of(&second.1), 2);
            assert_eq!(int_of(o.get(&b"a".to_vec()).unwrap()), 1);
            assert_eq!(int_of(o.get(&b"b".to_vec()).unwrap()), 2);
        },
        _ => panic!("expected an object literal"),
    }
}

#[test]
fn test_non_string_key() {
    assert_eq!(err_kind("{1:2}"), ErrorKind::NonStringKey);
}

#[test]
fn test_duplicate_key_replaced_in_place() {
    let d = parse("{\"a\":1,\"b\":2,\"a\":3}").unwrap();
    match &d.value {
        JValue::Object(VKind::Lit(o)) => {
            assert_eq!(o.len(), 2);
            let first = o.get_index(0).unwrap();
            assert_eq!(first.0, b"a");
            assert_eq!(int_of(&first.1), 3);
        },
        _ => panic!("expected an object literal"),
    }
}

#[test]
fn test_invalid_object_separator() {
    assert_eq!(err_kind("{\"a\":1;}"), ErrorKind::InvalidObjectSeparator);
}

#[test]
fn test_missing_colon() {
    assert_eq!(err_kind("{\"a\" 1}"), ErrorKind::SyntaxError);
}

#[test]
fn test_empty_input_is_eof() {
    assert_eq!(err_kind(""), ErrorKind::UnexpectedEof);
}

#[test]
fn test_unclosed_array_is_eof() {
    assert_eq!(err_kind("[1,2"), ErrorKind::UnexpectedEof);
}

#[test]
fn test_keywords() {
    assert!(matches!(parse("true").unwrap().value, JValue::Bool(VKind::Lit(true))));
    assert!(matches!(parse("false").unwrap().value, JValue::Bool(VKind::Lit(false))));
    assert!(matches!(parse("null").unwrap().value, JValue::Null));
    assert_eq!(err_kind("tru"), ErrorKind::SyntaxError);
    assert_eq!(err_kind("nul"), ErrorKind::SyntaxError);
}

#[test]
fn test_trailing_characters() {
    assert_eq!(err_kind("1 2"), ErrorKind::TrailingCharacters);
}

#[test]
fn test_positions_and_lines() {
    let d = parse("[\n1]").unwrap();
    assert_eq!(d.pos, 0);
    assert_eq!(d.ln, 1);
    match &d.value {
        JValue::Array(VKind::Lit(a)) => {
            assert_eq!(a[0].pos, 2);
            assert_eq!(a[0].ln, 2);
        },
        _ => panic!("expected an array literal"),
    }
}

#[test]
fn test_leading_zero_error_position() {
    let e = parse("00").err().unwrap();
    assert_eq!(e.kind, ErrorKind::LeadingZero);
    assert_eq!(e.pos, 1);
    assert_eq!(e.ln, 1);
}

#[test]
fn test_error_message_wording() {
    let e = parse("00").err().unwrap();
    assert_eq!(e.message(), "Leading zeros are not allowed in numbers");
    let e2 = parse("").err().unwrap();
    assert_eq!(e2.message(), "Unexpected end of text");
}

#[test]
fn test_nested_containers() {
    let d = parse(" { \"a\" : [ true , null ] , \"b\" : { } } ").unwrap();
    match &d.value {
        JValue::Object(VKind::Lit(o)) => {
            match &o.get(&b"a".to_vec()).unwrap().value {
                JValue::Array(VKind::Lit(a)) => {
                    assert_eq!(a.len(), 2);
                    assert!(matches!(a[0].value, JValue::Bool(VKind::Lit(true))));
                    assert!(matches!(a[1].value, JValue::Null));
                },
                _ => panic!("expected an array literal"),
            }
            match &o.get(&b"b".to_vec()).unwrap().value {
                JValue::Object(VKind::Lit(inner)) => assert!(inner.is_empty()),
                _ => panic!("expected an object literal"),
            }
        },
        _ => panic!("expected an object literal"),
    }
}

#[test]
fn test_escape_after_backslash_eof() {
    assert_eq!(err_kind("\"\\"), ErrorKind::UnexpectedEof);
}

#[test]
fn test_multibyte_passthrough() {
    let d = parse("\"héllo\"").unwrap();
    match &d.value {
        JValue::Str(VKind::Lit(s)) => assert_eq!(s, "héllo".as_bytes()),
        _ => panic!("expected a string literal"),
    }
}
