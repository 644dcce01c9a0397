use glass::error::EngineError;
use glass::headers::append_headers;
use glass::headers::decode_header;
use glass::headers::encode_header;
use glass::headers::header_map_to_vec;
use glass::headers::header_name_ok;
use glass::headers::header_value_ok;

#[test]
fn encode_header_exact_value() {
    let s = encode_header("X-Custom-Foo", "Bar").unwrap();
    assert_eq!(s, "X-Custom-Foo:Bar");
}

#[test]
fn header_round_trip_identity() {
    let pairs = vec![
        ("X-Custom-Foo".to_string(), "Bar".to_string()),
        ("ana-are-mere".to_string(), "marcel-pavel".to_string()),
        ("empty".to_string(), "".to_string()),
        ("colons-in-value".to_string(), "a:b:c".to_string()),
    ];
    let encoded = header_map_to_vec(&pairs).unwrap();
    assert_eq!(encoded.len(), pairs.len());
    let mut decoded: Vec<(String, String)> = Vec::new();
    append_headers(&mut decoded, Some(encoded)).unwrap();
    assert_eq!(decoded, pairs);
}

#[test]
fn header_value_with_control_char_is_rejected() {
    let r = encode_header("X-Ok", "bad\u{0007}value");
    assert_eq!(r, Err(EngineError::InvalidHeaderValue));
    let r2 = encode_header("X-Ok", "bad\nvalue");
    assert_eq!(r2, Err(EngineError::InvalidHeaderValue));
    let r3 = encode_header("X-Ok", "bad\u{009f}value");
    assert_eq!(r3, Err(EngineError::InvalidHeaderValue));
}

#[test]
fn header_name_with_separator_is_rejected() {
    assert_eq!(encode_header("bad:name", "v"), Err(EngineError::InvalidHeaderName));
    assert_eq!(encode_header("bad name?", "v"), Err(EngineError::InvalidHeaderName));
    assert!(!header_name_ok("a@b"));
    assert!(header_name_ok("X-Custom-Foo"));
    assert!(header_value_ok("Bar baz ok"));
    assert!(!header_value_ok("tab\tis-control"));
}

#[test]
fn list_rejection_stops_at_first_invalid_pair() {
    let pairs = vec![
        ("Good".to_string(), "fine".to_string()),
        ("Bad\u{1}".to_string(), "x".to_string()),
        ("Later".to_string(), "never-reached".to_string()),
    ];
    assert_eq!(header_map_to_vec(&pairs), Err(EngineError::InvalidHeaderName));
}

#[test]
fn decode_header_splits_at_first_colon() {
    let (k, v) = decode_header("name:v:a:l").unwrap();
    assert_eq!(k, "name");
    assert_eq!(v, "v:a:l");
}

#[test]
fn decode_header_without_colon_is_malformed() {
    assert_eq!(decode_header("no-separator"), Err(EngineError::MalformedHeader));
}

#[test]
fn append_headers_none_is_noop() {
    let mut out = vec![("kept".to_string(), "pair".to_string())];
    append_headers(&mut out, None).unwrap();
    assert_eq!(out.len(), 1);
}

#[test]
fn append_headers_rejects_malformed_pair() {
    let mut out: Vec<(String, String)> = Vec::new();
    let r = append_headers(&mut out, Some(vec!["ok:1".to_string(), "broken".to_string()]));
    assert_eq!(r, Err(EngineError::MalformedHeader));
    assert_eq!(out.len(), 1);
}
