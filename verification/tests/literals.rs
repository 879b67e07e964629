use js_parser::{
    number_from_scan, parse_false, parse_number, parse_primitive, parse_string, parse_true,
    primitive_from_scan, ErrorKind, JsBool, JsNumber, JsPrimitive, JsString, NumberScan,
    ParseError,
};

fn string(text: &str) -> JsPrimitive {
    JsPrimitive::String(JsString { inner: text.to_string() })
}

fn number(value: f32) -> JsPrimitive {
    JsPrimitive::Number(JsNumber { bits: value.to_bits() })
}

fn boolean(value: bool) -> JsPrimitive {
    JsPrimitive::Bool(JsBool { inner: value })
}

#[test]
fn string_literal_round_trip() {
    let texts = ["", "a", "Hello, world!", "with ) and ( and { }", "tab\there", "naïve ✓ 日本"];
    for text in texts {
        let source = format!("\"{}\"", text);
        assert_eq!(parse_primitive(&source), Ok(("", Some(string(text)))));
    }
}

#[test]
fn string_literal_stops_at_the_next_quote() {
    assert_eq!(parse_primitive("\"ab\"cd\""), Ok(("cd\"", Some(string("ab")))));
    assert_eq!(
        parse_string("\"x\" rest"),
        Ok(Some((" rest", JsString { inner: "x".to_string() })))
    );
}

#[test]
fn string_literal_has_no_escapes() {
    assert_eq!(parse_primitive("\"a\\\"b\""), Ok(("b\"", Some(string("a\\")))));
}

#[test]
fn string_parser_passes_over_other_text() {
    assert_eq!(parse_string("abc"), Ok(None));
    assert_eq!(parse_string(""), Ok(None));
    assert_eq!(parse_string(" \"a\""), Ok(None));
}

#[test]
fn unterminated_string_is_unexpected_end_of_input() {
    let expected = ParseError { kind: ErrorKind::UnexpectedEndOfInput, position: 1 };
    for source in ["\"", "\"abc", "\"abc) { } true 5", "\"1, 2, 3"] {
        assert_eq!(parse_primitive(source), Err(expected));
        assert_eq!(parse_string(source), Err(expected));
    }
}

#[test]
fn booleans_are_exact() {
    assert_eq!(parse_primitive("true"), Ok(("", Some(boolean(true)))));
    assert_eq!(parse_primitive("false"), Ok(("", Some(boolean(false)))));
    assert_eq!(parse_true("true"), Some(("", JsBool { inner: true })));
    assert_eq!(parse_false("false"), Some(("", JsBool { inner: false })));
}

#[test]
fn booleans_are_case_sensitive() {
    assert_eq!(parse_primitive("True"), Ok(("True", None)));
    assert_eq!(parse_primitive("FALSE"), Ok(("FALSE", None)));
    assert_eq!(parse_true("false"), None);
    assert_eq!(parse_false("true"), None);
    assert_eq!(parse_true("tru"), None);
}

#[test]
fn booleans_have_no_word_boundary() {
    assert_eq!(parse_primitive("truely"), Ok(("ly", Some(boolean(true)))));
    assert_eq!(parse_primitive("falsehood"), Ok(("hood", Some(boolean(false)))));
}

#[test]
fn numbers_keep_their_value() {
    for (source, value) in [
        ("0", 0.0f32),
        ("1", 1.0),
        ("5", 5.0),
        ("36.99", 36.99),
        ("-2.5", -2.5),
        ("+7", 7.0),
        (".5", 0.5),
        ("3.", 3.0),
        ("1e3", 1000.0),
        ("1.5E-2", 0.015),
        ("123456.789", 123456.789),
        ("3.4028235e38", f32::MAX),
        ("1.17549435e-38", f32::MIN_POSITIVE),
    ] {
        assert_eq!(parse_primitive(source), Ok(("", Some(number(value)))), "{}", source);
        assert_eq!(parse_number(source), Ok(Some(("", JsNumber { bits: value.to_bits() }))));
    }
}

#[test]
fn number_of_a_float_printed_in_decimal() {
    for value in [0.1f32, 2.0, 36.99, 1024.5, -0.75, 16777216.0, 0.000123] {
        let source = format!("{}", value);
        match parse_number(&source) {
            Ok(Some((rest, found))) => {
                assert_eq!(rest, "");
                assert_eq!(f32::from_bits(found.bits), value);
            }
            other => panic!("{} gave {:?}", source, other),
        }
    }
}

#[test]
fn number_stops_where_the_number_ends() {
    assert_eq!(parse_number("5 == 5"), Ok(Some((" == 5", JsNumber { bits: 5.0f32.to_bits() }))));
    assert_eq!(parse_number("12, 13"), Ok(Some((", 13", JsNumber { bits: 12.0f32.to_bits() }))));
    assert_eq!(parse_number("1.5.2"), Ok(Some((".2", JsNumber { bits: 1.5f32.to_bits() }))));
}

#[test]
fn number_parser_passes_over_other_text() {
    assert_eq!(parse_number("abc"), Ok(None));
    assert_eq!(parse_number(""), Ok(None));
    assert_eq!(parse_number(" 5"), Ok(None));
    assert_eq!(parse_number("-"), Ok(None));
    assert_eq!(parse_number("."), Ok(None));
}

#[test]
fn number_with_a_broken_exponent_is_malformed() {
    let expected = ParseError { kind: ErrorKind::MalformedLiteral, position: 0 };
    assert_eq!(parse_number("1e"), Err(expected));
    assert_eq!(parse_number("2.5E+"), Err(expected));
    assert_eq!(parse_primitive("1ex"), Err(expected));
}

#[test]
fn number_names_infinity() {
    assert_eq!(
        parse_number("inf"),
        Ok(Some(("", JsNumber { bits: f32::INFINITY.to_bits() })))
    );
    assert_eq!(
        parse_number("infinity"),
        Ok(Some(("inity", JsNumber { bits: f32::INFINITY.to_bits() })))
    );
    match parse_number("NaN") {
        Ok(Some((rest, found))) => {
            assert_eq!(rest, "");
            assert!(f32::from_bits(found.bits).is_nan());
        }
        other => panic!("{:?}", other),
    }
}

#[test]
fn number_beside_other_alphabets() {
    assert_eq!(parse_number("1é"), Ok(Some(("é", JsNumber { bits: 1.0f32.to_bits() }))));
    assert_eq!(parse_number("2.5日本"), Ok(Some(("日本", JsNumber { bits: 2.5f32.to_bits() }))));
    for source in ["é1", "１", "٣", "İnf", "ınf", "ｎan", "\u{212a}", "n\u{307}an", "日本"] {
        assert_eq!(parse_number(source), Ok(None), "{}", source);
        assert_eq!(parse_primitive(source), Ok((source, None)), "{}", source);
    }
}

#[test]
fn scan_decides_the_number() {
    assert_eq!(
        number_from_scan(NumberScan::Matched("rest", 7)),
        Ok(Some(("rest", JsNumber { bits: 7 })))
    );
    assert_eq!(number_from_scan(NumberScan::Absent), Ok(None));
    assert_eq!(
        number_from_scan(NumberScan::Malformed),
        Err(ParseError { kind: ErrorKind::MalformedLiteral, position: 0 })
    );
}

#[test]
fn scan_comes_before_the_keywords() {
    assert_eq!(
        primitive_from_scan("true", NumberScan::Absent),
        Ok(("", Some(boolean(true))))
    );
    assert_eq!(
        primitive_from_scan("false!", NumberScan::Absent),
        Ok(("!", Some(boolean(false))))
    );
    assert_eq!(primitive_from_scan("maybe", NumberScan::Absent), Ok(("maybe", None)));
    assert_eq!(
        primitive_from_scan("true", NumberScan::Matched("e", 9)),
        Ok(("e", Some(JsPrimitive::Number(JsNumber { bits: 9 }))))
    );
    assert_eq!(
        primitive_from_scan("true", NumberScan::Malformed),
        Err(ParseError { kind: ErrorKind::MalformedLiteral, position: 0 })
    );
}

#[test]
fn no_literal_is_no_error() {
    assert_eq!(parse_primitive(""), Ok(("", None)));
    assert_eq!(parse_primitive(", 1"), Ok((", 1", None)));
    assert_eq!(parse_primitive("name"), Ok(("name", None)));
    assert_eq!(parse_primitive(" true"), Ok((" true", None)));
}

#[test]
fn literal_forms_are_tried_in_order() {
    assert_eq!(parse_primitive("\"1\""), Ok(("", Some(string("1")))));
    assert_eq!(parse_primitive("\"true\""), Ok(("", Some(string("true")))));
    assert_eq!(parse_primitive("1true"), Ok(("true", Some(number(1.0)))));
}
