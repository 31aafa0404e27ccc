use wjsm_runtime::json::{
    compute_nonspace_bits_scalar, parse_json_text, JsonError, JsonParser, JsonValue, StringBlock,
};

fn parse(s: &str) -> Result<JsonValue, JsonError> {
    parse_json_text(s.as_bytes())
}

fn number(text: &str) -> JsonValue {
    JsonValue::Number(text.as_bytes().to_vec())
}

fn string(text: &str) -> JsonValue {
    JsonValue::String(text.as_bytes().to_vec())
}

#[test]
fn test_skip_whitespace_and_cache() {
    let mut p = JsonParser::new(b"   \n\t  1");
    p.skip_whitespace();
    assert_eq!(p.pos(), 7);
    p.skip_whitespace();
    assert_eq!(p.pos(), 7);
}

#[test]
fn test_parse_null_true_false() {
    assert!(matches!(parse("null").unwrap(), JsonValue::Null));
    assert!(matches!(parse("true").unwrap(), JsonValue::Bool(true)));
    assert!(matches!(parse("false").unwrap(), JsonValue::Bool(false)));
    assert!(parse(" null ").is_ok());
}

#[test]
fn test_parse_numbers() {
    assert_eq!(parse("0").unwrap(), number("0"));
    assert_eq!(parse("-42").unwrap(), number("-42"));
    assert_eq!(parse("3.14").unwrap(), number("3.14"));
    assert_eq!(parse("1e3").unwrap(), number("1e3"));
    assert_eq!(parse("1.5e-2").unwrap(), number("1.5e-2"));
    assert!(parse("01").is_err());
    assert!(parse("1.").is_err());
    assert!(parse("-01").is_err());
}

#[test]
fn test_parse_strings_and_escapes() {
    assert_eq!(parse(r#""hello""#).unwrap(), string("hello"));
    assert_eq!(parse(r#""a\nb\tc""#).unwrap(), string("a\nb\tc"));
    assert_eq!(parse(r#""\\ \" \/""#).unwrap(), string(r#"\ " /"#));
    assert!(parse("\"\\u0041\"").is_ok());
}

#[test]
fn test_parse_arrays() {
    let v = parse("[1,2,3]").unwrap();
    if let JsonValue::Array(a) = v {
        assert_eq!(a.len(), 3);
    } else {
        panic!();
    }
    assert!(parse("[]").is_ok());
    assert!(parse("[1,]").is_err());
    assert!(parse("[1,2").is_err());
}

#[test]
fn test_parse_objects() {
    let v = parse(r#"{"a":1,"b":true}"#).unwrap();
    if let JsonValue::Object(o) = v {
        assert_eq!(o.len(), 2);
    } else {
        panic!();
    }
    assert!(parse("{}").is_ok());
    assert!(parse(r#"{"a":1,}"#).is_err());
}

#[test]
fn test_parse_errors_and_trailing() {
    assert!(parse("{not json").is_err());
    assert!(parse("1 2").is_err());
    assert!(parse("").is_err());
}

#[test]
fn test_parse_deeply_nested_for_coverage() {
    let s = r#"{"a":[1,{"x":null},true],"b":false}"#;
    assert!(parse(s).is_ok());
}

#[test]
fn unicode_escapes_and_surrogate_pairs_decode_to_utf8() {
    assert_eq!(parse("\"\\u0041\"").unwrap(), string("A"));
    assert_eq!(parse("\"\\u00e9\"").unwrap(), string("é"));
    assert_eq!(parse("\"\\u20ac\"").unwrap(), string("€"));
    assert_eq!(parse("\"\\ud83d\\ude00\"").unwrap(), string("😀"));
    assert_eq!(parse("\"é😀\"").unwrap(), string("é😀"));
}

#[test]
fn string_errors_are_classified() {
    assert_eq!(parse("\"abc"), Err(JsonError::UnterminatedString));
    assert_eq!(parse("\"\\"), Err(JsonError::UnterminatedEscape));
    assert_eq!(parse("\"\\x\""), Err(JsonError::InvalidEscape(b'x')));
    assert_eq!(parse("\"\\u00g0\""), Err(JsonError::InvalidHexDigit(b'g')));
    assert_eq!(parse("\"\\u00"), Err(JsonError::UnexpectedEndInUnicodeEscape));
    assert_eq!(parse("\"\\ud83d\""), Err(JsonError::ExpectedBackslashBeforeLowSurrogate));
    assert_eq!(parse("\"\\ud83d\\x\""), Err(JsonError::ExpectedUBeforeLowSurrogate));
    assert_eq!(parse("\"\\ud83d\\u0041\""), Err(JsonError::InvalidLowSurrogate));
    assert_eq!(parse("\"\\ude00\""), Err(JsonError::UnexpectedLowSurrogate));
    assert_eq!(parse("\"a\u{1}\""), Err(JsonError::ControlCharacter(1)));
    assert_eq!(parse_json_text(b"\"\x80\""), Err(JsonError::InvalidUtf8LeadingByte));
    assert_eq!(parse_json_text(b"\"\xc3"), Err(JsonError::IncompleteUtf8Sequence));
    assert_eq!(parse_json_text(b"\"\xc3A\""), Err(JsonError::InvalidUtf8ContinuationByte));
    assert_eq!(parse_json_text(b"\"\xc0\x80\""), Err(JsonError::InvalidUtf8Sequence));
}

#[test]
fn structural_errors_are_classified() {
    assert_eq!(parse("nul"), Err(JsonError::ExpectedNull));
    assert_eq!(parse("tru"), Err(JsonError::ExpectedTrue));
    assert_eq!(parse("fals"), Err(JsonError::ExpectedFalse));
    assert_eq!(parse("?"), Err(JsonError::UnexpectedCharacter(b'?')));
    assert_eq!(parse("   "), Err(JsonError::UnexpectedEnd));
    assert_eq!(parse("[1 2]"), Err(JsonError::Expected { expected: b',', found: Some(b'2') }));
    assert_eq!(parse("[1,]"), Err(JsonError::TrailingCommaInArray));
    assert_eq!(parse("{\"a\":1,}"), Err(JsonError::TrailingCommaInObject));
    assert_eq!(parse("{a:1}"), Err(JsonError::ExpectedQuote));
    assert_eq!(parse("{\"a\" 1}"), Err(JsonError::Expected { expected: b':', found: Some(b'1') }));
    assert_eq!(parse("{\"a\""), Err(JsonError::Expected { expected: b':', found: None }));
    assert_eq!(parse("-"), Err(JsonError::InvalidNumber));
    assert_eq!(parse("1 2"), Err(JsonError::TrailingContent));
}

#[test]
fn whitespace_skipping_crosses_windows() {
    let mut text = vec![b' '; 150];
    text.push(b'7');
    let mut p = JsonParser::new(&text);
    p.skip_whitespace();
    assert_eq!(p.pos(), 150);
    assert_eq!(p.peek(), Some(b'7'));
    assert_eq!(p.next(), Some(b'7'));
    assert_eq!(p.next(), None);
    let mut q = JsonParser::new(b"  x");
    assert_eq!(q.expect(b'['), Err(JsonError::Expected { expected: b'[', found: Some(b' ') }));
}

#[test]
fn nonspace_bitmap_marks_non_whitespace() {
    let bits = compute_nonspace_bits_scalar(b" a\tb", 0);
    assert_eq!(bits, 0b1010);
    assert_eq!(compute_nonspace_bits_scalar(b"ab", 5), 0);
}

#[test]
fn string_block_masks() {
    let block = StringBlock::from_bytes(b"ab\"c\\");
    assert_eq!(block.quote_bits, 0b100);
    assert_eq!(block.backslash_bits, 0b10000);
    assert!(block.has_quote_first());
    assert_eq!(block.quote_index(), 2);
    assert!(block.has_backslash());
    assert!(!block.has_control());
    let escaped = StringBlock::from_bytes(b"\\\"");
    assert!(!escaped.has_quote_first());
}
