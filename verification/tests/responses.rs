use pigrabbit::response::{parse_ack_response, parse_records_response, parse_ssl_response};

#[test]
fn ack_success_is_present() {
    assert!(parse_ack_response("{\"status\":\"SUCCESS\"}").is_some());
}

#[test]
fn ack_success_with_more_fields_is_present() {
    assert!(parse_ack_response("{\"status\":\"SUCCESS\",\"id\":106926652}").is_some());
}

#[test]
fn ack_non_success_is_absent() {
    assert!(parse_ack_response("{\"status\":\"ERROR\"}").is_none());
    assert!(parse_ack_response("{\"status\":\"success\"}").is_none());
    assert!(parse_ack_response("{\"status\":\"\"}").is_none());
}

#[test]
fn ack_missing_status_is_absent() {
    assert!(parse_ack_response("{\"message\":\"ok\"}").is_none());
    assert!(parse_ack_response("{}").is_none());
}

#[test]
fn ack_malformed_is_absent() {
    assert!(parse_ack_response("").is_none());
    assert!(parse_ack_response("not json").is_none());
    assert!(parse_ack_response("{\"status\":\"SUCCESS\"").is_none());
}

#[test]
fn ack_status_of_wrong_type_is_absent() {
    assert!(parse_ack_response("{\"status\":1}").is_none());
}

#[test]
fn ssl_success_is_present() {
    let doc = "{\"status\":\"SUCCESS\",\"intermediate_certificate\":\"IC\",\"certificate_chain\":\"CC\",\"private_key\":\"PRIV\",\"public_key\":\"PUB\"}";
    let cert = parse_ssl_response(doc).expect("should be present");
    assert_eq!(cert.intermediate_certificate, "IC");
    assert_eq!(cert.certificate_chain, "CC");
    assert_eq!(cert.private_key, "PRIV");
    assert_eq!(cert.public_key, "PUB");
}

#[test]
fn ssl_non_success_is_absent() {
    let doc = "{\"status\":\"ERROR\",\"intermediate_certificate\":\"IC\",\"certificate_chain\":\"CC\",\"private_key\":\"PRIV\",\"public_key\":\"PUB\"}";
    assert!(parse_ssl_response(doc).is_none());
}

#[test]
fn ssl_missing_field_is_absent() {
    let doc = "{\"status\":\"SUCCESS\",\"certificate_chain\":\"CC\",\"private_key\":\"PRIV\",\"public_key\":\"PUB\"}";
    assert!(parse_ssl_response(doc).is_none());
}

#[test]
fn records_two_entries() {
    let doc = "{\"status\":\"SUCCESS\",\"records\":[{\"name\":\"www.example.com\",\"dtype\":\"A\",\"content\":\"1.2.3.4\",\"ttl\":300,\"id\":\"1001\",\"prio\":\"0\",\"notes\":\"\"},{\"name\":\"example.com\",\"dtype\":\"MX\",\"content\":\"mail.example.com\",\"ttl\":600,\"id\":\"1002\",\"prio\":\"10\",\"notes\":\"mx\"}]}";
    let records = parse_records_response(doc).expect("should be present");
    assert_eq!(records.len(), 2);
    assert_eq!(records[0].record.name, "www.example.com");
    assert_eq!(records[0].record.dtype, "A");
    assert_eq!(records[0].record.content, "1.2.3.4");
    assert_eq!(records[0].record.ttl, 300);
    assert_eq!(records[0].id, "1001");
    assert_eq!(records[0].prio, "0");
    assert_eq!(records[0].notes, "");
    assert_eq!(records[1].record.dtype, "MX");
    assert_eq!(records[1].record.ttl, 600);
    assert_eq!(records[1].id, "1002");
    assert_eq!(records[1].notes, "mx");
}

#[test]
fn records_empty_array_is_present_and_empty() {
    let doc = "{\"status\":\"SUCCESS\",\"records\":[]}";
    let records = parse_records_response(doc).expect("should be present");
    assert!(records.is_empty());
}

#[test]
fn records_non_success_is_absent() {
    let doc = "{\"status\":\"ERROR\",\"records\":[]}";
    assert!(parse_records_response(doc).is_none());
}

#[test]
fn records_missing_array_is_absent() {
    assert!(parse_records_response("{\"status\":\"SUCCESS\"}").is_none());
}

#[test]
fn records_incomplete_record_is_absent() {
    let doc = "{\"status\":\"SUCCESS\",\"records\":[{\"name\":\"x\",\"dtype\":\"A\"}]}";
    assert!(parse_records_response(doc).is_none());
}

#[test]
fn records_ttl_beyond_i32_is_absent() {
    let doc = "{\"status\":\"SUCCESS\",\"records\":[{\"name\":\"x\",\"dtype\":\"A\",\"content\":\"c\",\"ttl\":2147483648,\"id\":\"1\",\"prio\":\"0\",\"notes\":\"\"}]}";
    assert!(parse_records_response(doc).is_none());
}
