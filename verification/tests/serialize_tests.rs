use jsompiler::{JParser, JValue, Json, VKind};

fn parse(s: &str) -> Json {
    let mut p = JParser::default();
    p.parse(s.as_bytes().to_vec()).expect("parse failed")
}

fn render(s: &str) -> String {
    String::from_utf8(parse(s).write_json(0)).unwrap()
}

/// Structural equality of literal content and order, ignoring positions.
fn lit_eq(a: &Json, b: &Json) -> bool {
    match (&a.value, &b.value) {
        (JValue::Null, JValue::Null) => true,
        (JValue::Bool(VKind::Lit(x)), JValue::Bool(VKind::Lit(y))) => x == y,
        (JValue::Int(VKind::Lit(x)), JValue::Int(VKind::Lit(y))) => x == y,
        (JValue::Float(VKind::Lit(x)), JValue::Float(VKind::Lit(y))) => x == y,
        (JValue::Str(VKind::Lit(x)), JValue::Str(VKind::Lit(y))) => x == y,
        (JValue::Array(VKind::Lit(x)), JValue::Array(VKind::Lit(y))) => {
            x.len() == y.len() && x.iter().zip(y.iter()).all(|(u, v)| lit_eq(u, v))
        },
        (JValue::Object(VKind::Lit(x)), JValue::Object(VKind::Lit(y))) => {
            x.len() == y.len() && x.iter().iter().zip(y.iter().iter()).all(
                |(u, v)| u.0 == v.0 && lit_eq(&u.1, &v.1),
            )
        },
        _ => false,
    }
}

#[test]
fn test_render_scalars() {
    assert_eq!(render("null"), "null");
    assert_eq!(render("true"), "true");
    assert_eq!(render("false"), "false");
    assert_eq!(render("42"), "42");
    assert_eq!(render("-7"), "-7");
    assert_eq!(render("-9223372036854775808"), "-9223372036854775808");
    assert_eq!(render("1.5e10"), "1.5e10");
}

#[test]
fn test_render_array_indented() {
    assert_eq!(render("[1,2]"), "[\n  1,\n  2\n]");
}

#[test]
fn test_render_empty_containers_multiline() {
    assert_eq!(render("[]"), "[\n\n]");
    assert_eq!(render("{}"), "{\n\n}");
}

#[test]
fn test_render_object_indented() {
    assert_eq!(render("{\"a\":1}"), "{\n  \"a\": 1\n}");
}

#[test]
fn test_render_nested_indentation() {
    assert_eq!(render("[[1]]"), "[\n  [\n    1\n  ]\n]");
}

#[test]
fn test_render_reescapes_string() {
    assert_eq!(render("\"a\\n\\\"\\\\b\""), "\"a\\n\\\"\\\\b\"");
}

#[test]
fn test_render_control_byte_as_lower_hex() {
    assert_eq!(render("\"\\u0001\""), "\"\\u0001\"");
    assert_eq!(render("\"\\u001f\""), "\"\\u001f\"");
}

#[test]
fn test_render_symbolic_forms() {
    let b = Json { pos: 0, ln: 1, value: JValue::Bool(VKind::Sym(b"flag".to_vec())) };
    assert_eq!(String::from_utf8(b.write_json(0)).unwrap(), "(flag: bool)");
    let s = Json { pos: 0, ln: 1, value: JValue::Str(VKind::Sym(b"name".to_vec())) };
    assert_eq!(String::from_utf8(s.write_json(0)).unwrap(), "(name: string)");
}

#[test]
fn test_render_call_form() {
    let one = Json { pos: 0, ln: 1, value: JValue::Int(VKind::Lit(1)) };
    let two = Json { pos: 0, ln: 1, value: JValue::Int(VKind::Lit(2)) };
    let call = Json { pos: 0, ln: 1, value: JValue::Func(b"f".to_vec(), vec![one, two]) };
    assert_eq!(String::from_utf8(call.write_json(0)).unwrap(), "f(1, 2)");
}

#[test]
fn test_round_trip_literal_document() {
    let src = "{\"a\":[1,true,null,\"x\"],\"b\":{},\"c\":-2,\"d\":1.25e-3}";
    let first = parse(src);
    let text = first.write_json(0);
    let mut p = JParser::default();
    let second = p.parse(text).expect("reparse failed");
    assert!(lit_eq(&first, &second));
}

#[test]
fn test_round_trip_all_escapes() {
    let src = "\"\\n\\t\\r\\b\\f\\\\\\/\\\"\\u0041\\u00e9\\u1234\\u0007\"";
    let first = parse(src);
    let text = first.write_json(0);
    let mut p = JParser::default();
    let second = p.parse(text).expect("reparse failed");
    assert!(lit_eq(&first, &second));
    let text2 = second.write_json(0);
    let mut p2 = JParser::default();
    let third = p2.parse(text2).expect("second reparse failed");
    assert!(lit_eq(&second, &third));
}

#[test]
fn test_round_trip_keeps_object_order() {
    let src = "{\"z\":1,\"a\":2,\"m\":3}";
    let first = parse(src);
    let mut p = JParser::default();
    let second = p.parse(first.write_json(0)).expect("reparse failed");
    match &second.value {
        JValue::Object(VKind::Lit(o)) => {
            assert_eq!(o.get_index(0).unwrap().0, b"z");
            assert_eq!(o.get_index(1).unwrap().0, b"a");
            assert_eq!(o.get_index(2).unwrap().0, b"m");
        },
        _ => panic!("expected an object literal"),
    }
}
