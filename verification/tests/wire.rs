use ratchjob::grpc::{HandlerResult, PayloadUtils};
use ratchjob::http_utils::ResponseWrap;
use std::collections::HashMap;

#[test]
fn response_bodies() {
    let r = ResponseWrap { status: 200, headers: vec![], body: "héllo".as_bytes().to_vec() };
    assert!(r.status_is_200());
    assert_eq!(r.get_string_body(), "héllo");
    assert_eq!(r.get_lossy_string_body(), "héllo");
    let bad = ResponseWrap { status: 500, headers: vec![], body: vec![0x61, 0xff, 0x62] };
    assert!(!bad.status_is_200());
    assert_eq!(bad.get_lossy_string_body(), "a\u{fffd}b");
}

#[test]
fn headers_last_value_wins() {
    let h = vec![
        ("a".to_string(), "1".to_string()),
        ("b".to_string(), "2".to_string()),
        ("a".to_string(), "3".to_string()),
    ];
    let r = ResponseWrap { status: 200, headers: h.clone(), body: vec![] };
    let m = r.get_map_headers();
    assert_eq!(m, vec![("a".to_string(), "3".to_string()), ("b".to_string(), "2".to_string())]);
    assert_eq!(ResponseWrap::convert_to_map_headers(h), m);
}

#[test]
fn payloads() {
    let p = PayloadUtils::build_payload("T", vec![1, 2]);
    assert_eq!(p.payload_type, "T");
    assert!(p.headers.is_empty());
    assert_eq!(p.body.as_ref().unwrap().value, vec![1, 2]);
    assert_eq!(p.body.as_ref().unwrap().type_url, "");
    let e = PayloadUtils::build_empty_payload();
    assert_eq!(e.payload_type, "");
    assert!(e.body.is_none());
    let err = PayloadUtils::build_error_payload(500, "boom".to_string());
    assert_eq!(err.payload_type, "ErrorResponse");
    assert_eq!(err.body.unwrap().value, b"boom".to_vec());
    let mut h = HashMap::new();
    h.insert("k".to_string(), "v".to_string());
    let full = PayloadUtils::build_full_payload("X", b"hi".to_vec(), h);
    assert_eq!(PayloadUtils::get_payload_header(&full), "type:X,header:{\"k\": \"v\"},");
    assert_eq!(PayloadUtils::get_payload_string(&full), "type:X,header:{\"k\": \"v\"},body:hi");
    assert_eq!(PayloadUtils::get_payload_string(&e), "type:,header:{},");
}

#[test]
fn handler_results() {
    let r = HandlerResult::error(400, "bad".to_string());
    assert!(!r.success);
    assert_eq!(r.message.as_deref(), Some("bad"));
    assert_eq!(r.payload.payload_type, "ErrorResponse");
    let ok = HandlerResult::success(PayloadUtils::build_empty_payload());
    assert!(ok.success);
    assert!(ok.message.is_none());
    let m = HandlerResult::error_mark(PayloadUtils::build_empty_payload());
    assert!(!m.success && m.message.is_none());
    let w = HandlerResult::error_with_message(PayloadUtils::build_empty_payload(), "x".to_string());
    assert_eq!(w.message.as_deref(), Some("x"));
}

#[test]
fn payload_body_is_appended_to_the_header_text() {
    let p = PayloadUtils::build_full_payload("X", vec![0x61, 0xff], HashMap::new());
    assert_eq!(PayloadUtils::append_payload_body("H,".to_string(), &p), "H,body:a\u{FFFD}");
    let e = PayloadUtils::build_empty_payload();
    assert_eq!(PayloadUtils::append_payload_body("H,".to_string(), &e), "H,");
    let header = PayloadUtils::get_payload_header(&p);
    assert_eq!(PayloadUtils::get_payload_string(&p), format!("{}body:a\u{FFFD}", header));
}
