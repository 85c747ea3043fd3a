use pigrabbit::body::{
    encode_complicated_body, encode_keys_body, encode_simple_body, parse_keys_json,
};
use pigrabbit::json::{parse_json_object, JsonValue};
use pigrabbit::types::{ComplicatedBody, Keys, Record, SimpleBody};

fn keys() -> Keys {
    Keys { secretapikey: "sk1".to_string(), apikey: "ak1".to_string() }
}

fn str_value(fields: &[(String, JsonValue)], key: &str) -> String {
    for (k, v) in fields {
        if k == key {
            match v {
                JsonValue::Str(s) => return s.clone(),
                _ => panic!("field {} is not a string", key),
            }
        }
    }
    panic!("field {} not found", key);
}

fn int_value(fields: &[(String, JsonValue)], key: &str) -> i64 {
    for (k, v) in fields {
        if k == key {
            match v {
                JsonValue::Int(n) => return *n,
                _ => panic!("field {} is not an integer", key),
            }
        }
    }
    panic!("field {} not found", key);
}

#[test]
fn keys_body_exact() {
    assert_eq!(
        encode_keys_body(&keys()),
        "{\"secretapikey\":\"sk1\",\"apikey\":\"ak1\"}"
    );
}

#[test]
fn complicated_body_exact() {
    let k = keys();
    let record = Record {
        name: "www".to_string(),
        dtype: "A".to_string(),
        content: "1.2.3.4".to_string(),
        ttl: 300,
    };
    let body = record.to_complicated_body(&k);
    assert_eq!(
        encode_complicated_body(&body),
        "{\"secretapikey\":\"sk1\",\"apikey\":\"ak1\",\"name\":\"www\",\"dtype\":\"A\",\"content\":\"1.2.3.4\",\"ttl\":300}"
    );
}

#[test]
fn simple_body_exact() {
    let k = keys();
    let body = SimpleBody {
        secretapikey: k.secretapikey.as_str(),
        apikey: k.apikey.as_str(),
        content: "5.6.7.8",
        ttl: -1,
    };
    assert_eq!(
        encode_simple_body(&body),
        "{\"secretapikey\":\"sk1\",\"apikey\":\"ak1\",\"content\":\"5.6.7.8\",\"ttl\":-1}"
    );
}

#[test]
fn complicated_body_escapes_content() {
    let body = ComplicatedBody {
        secretapikey: "s",
        apikey: "a",
        name: "n\"1",
        dtype: "A\\B",
        content: "line1\nline2\tend\r",
        ttl: 0,
    };
    assert_eq!(
        encode_complicated_body(&body),
        "{\"secretapikey\":\"s\",\"apikey\":\"a\",\"name\":\"n\\\"1\",\"dtype\":\"A\\\\B\",\"content\":\"line1\\nline2\\tend\\r\",\"ttl\":0}"
    );
}

#[test]
fn record_payload_round_trip() {
    let body = ComplicatedBody {
        secretapikey: "sk \"quoted\"",
        apikey: "ak\\slash",
        name: "sub.domain",
        dtype: "TXT",
        content: "v=spf1\ninclude:x -all",
        ttl: -600,
    };
    let encoded = encode_complicated_body(&body);
    let fields = parse_json_object(&encoded).expect("echo of the payload should parse");
    assert_eq!(fields.len(), 6);
    assert_eq!(str_value(&fields, "secretapikey"), "sk \"quoted\"");
    assert_eq!(str_value(&fields, "apikey"), "ak\\slash");
    assert_eq!(str_value(&fields, "name"), "sub.domain");
    assert_eq!(str_value(&fields, "dtype"), "TXT");
    assert_eq!(str_value(&fields, "content"), "v=spf1\ninclude:x -all");
    assert_eq!(int_value(&fields, "ttl"), -600);
}

#[test]
fn keys_body_round_trip() {
    let k = Keys { secretapikey: "s3\tcr\\et".to_string(), apikey: "\"".to_string() };
    let encoded = encode_keys_body(&k);
    let fields = parse_json_object(&encoded).expect("echo of the body should parse");
    assert_eq!(fields.len(), 2);
    assert_eq!(str_value(&fields, "secretapikey"), "s3\tcr\\et");
    assert_eq!(str_value(&fields, "apikey"), "\"");
}

#[test]
fn keys_config_round_trip() {
    let k = Keys { secretapikey: "sec\"ret".to_string(), apikey: "plain".to_string() };
    let stored = encode_keys_body(&k);
    let back = parse_keys_json(&stored).expect("stored keys should parse");
    assert_eq!(back.secretapikey, "sec\"ret");
    assert_eq!(back.apikey, "plain");
}

#[test]
fn keys_config_missing_field_rejected() {
    assert!(parse_keys_json("{\"secretapikey\":\"s\"}").is_none());
    assert!(parse_keys_json("{}").is_none());
    assert!(parse_keys_json("not json").is_none());
}

#[test]
fn keys_config_wrong_type_rejected() {
    assert!(parse_keys_json("{\"secretapikey\":\"s\",\"apikey\":7}").is_none());
}
