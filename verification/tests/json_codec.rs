use pigrabbit::json::{parse_i32, parse_json_object, scan_int, scan_string, JsonValue};

fn str_value(fields: &[(String, JsonValue)], key: &str) -> String {
    for (k, v) in fields {
        if k == key {
            match v {
                JsonValue::Str(s) => return s.clone(),
                _ => panic!("field {} is not a string", key),
            }
        }
    }
    panic!("field {} not found", key);
}

fn int_value(fields: &[(String, JsonValue)], key: &str) -> i64 {
    for (k, v) in fields {
        if k == key {
            match v {
                JsonValue::Int(n) => return *n,
                _ => panic!("field {} is not an integer", key),
            }
        }
    }
    panic!("field {} not found", key);
}

#[test]
fn scan_string_plain() {
    let r = scan_string("abc\"rest", 0);
    let (content, after) = r.expect("should parse");
    assert_eq!(content, "abc");
    assert_eq!(after, 4);
}

#[test]
fn scan_string_escapes() {
    let r = scan_string("a\\\"b\\\\c\\nd\\re\\tf\"", 0);
    let (content, after) = r.expect("should parse");
    assert_eq!(content, "a\"b\\c\nd\re\tf");
    assert_eq!(after, 17);
}

#[test]
fn scan_string_unterminated_fails() {
    assert!(scan_string("abc", 0).is_none());
}

#[test]
fn scan_string_bad_escape_fails() {
    assert!(scan_string("a\\qb\"", 0).is_none());
}

#[test]
fn scan_int_values() {
    let (v, j) = scan_int("300,", 0).expect("should parse");
    assert_eq!(v, 300);
    assert_eq!(j, 3);
    let (v, j) = scan_int("-12}", 0).expect("should parse");
    assert_eq!(v, -12);
    assert_eq!(j, 3);
}

#[test]
fn scan_int_no_digits_fails() {
    assert!(scan_int("-", 0).is_none());
    assert!(scan_int("x", 0).is_none());
    assert!(scan_int("", 0).is_none());
}

#[test]
fn scan_int_overflow_fails() {
    // One more than i64::MAX.
    assert!(scan_int("9223372036854775808", 0).is_none());
}

#[test]
fn scan_int_at_i64_max() {
    let (v, j) = scan_int("9223372036854775807", 0).expect("should parse");
    assert_eq!(v, i64::MAX);
    assert_eq!(j, 19);
}

#[test]
fn parse_i32_whole_string() {
    assert_eq!(parse_i32("300"), Some(300));
    assert_eq!(parse_i32("-600"), Some(-600));
    assert_eq!(parse_i32("2147483647"), Some(i32::MAX));
    assert_eq!(parse_i32("2147483648"), None);
    assert_eq!(parse_i32("300x"), None);
    assert_eq!(parse_i32(""), None);
    assert_eq!(parse_i32("12 "), None);
}

#[test]
fn parse_empty_object() {
    let fields = parse_json_object("{}").expect("should parse");
    assert!(fields.is_empty());
}

#[test]
fn parse_flat_object() {
    let fields = parse_json_object("{\"a\":\"x\",\"b\":-7}").expect("should parse");
    assert_eq!(fields.len(), 2);
    assert_eq!(str_value(&fields, "a"), "x");
    assert_eq!(int_value(&fields, "b"), -7);
}

#[test]
fn parse_object_with_array() {
    let doc = "{\"status\":\"SUCCESS\",\"records\":[{\"n\":1},{},{\"m\":\"x\"}]}";
    let fields = parse_json_object(doc).expect("should parse");
    assert_eq!(str_value(&fields, "status"), "SUCCESS");
    match &fields[1].1 {
        JsonValue::Arr(elems) => {
            assert_eq!(elems.len(), 3);
            assert_eq!(elems[0].len(), 1);
            assert!(elems[1].is_empty());
            assert_eq!(elems[2][0].0, "m");
        },
        _ => panic!("records is not an array"),
    }
}

#[test]
fn parse_rejects_trailing_garbage() {
    assert!(parse_json_object("{\"a\":1} ").is_none());
    assert!(parse_json_object("{\"a\":1}x").is_none());
}

#[test]
fn parse_rejects_malformed() {
    assert!(parse_json_object("").is_none());
    assert!(parse_json_object("{").is_none());
    assert!(parse_json_object("{\"a\"}").is_none());
    assert!(parse_json_object("{\"a\":}").is_none());
    assert!(parse_json_object("{\"a\":1,}").is_none());
    assert!(parse_json_object("{a:1}").is_none());
    assert!(parse_json_object("[1]").is_none());
    // Whitespace is not part of the wire format this library emits.
    assert!(parse_json_object("{ \"a\": 1 }").is_none());
}

#[test]
fn parse_accepts_leading_zeros() {
    let fields = parse_json_object("{\"a\":0123}").expect("should parse");
    assert_eq!(int_value(&fields, "a"), 123);
}
