//! Tests of request-line validation and `Accept`-header negotiation.

use anes_http::http_object::HttpObject;

#[test]
fn test_is_http_valid_line() {
    let obj = HttpObject::new("GET /path HTTP/1.1".to_string(), String::new());
    assert!(obj.is_http());
}

#[test]
fn test_is_http_wrong_version() {
    let obj = HttpObject::new("GET /path HTTP/1.0".to_string(), String::new());
    assert!(!obj.is_http());
}

#[test]
fn test_is_http_other_third_token() {
    let obj = HttpObject::new("NOT HTTP DATA".to_string(), String::new());
    assert!(!obj.is_http());
}

#[test]
fn test_is_http_too_few_tokens() {
    let obj = HttpObject::new("GET /path".to_string(), String::new());
    assert!(!obj.is_http());
    let empty = HttpObject::new(String::new(), String::new());
    assert!(!empty.is_http());
}

#[test]
fn test_request_path() {
    let obj = HttpObject::new("GET /foo.txt HTTP/1.1".to_string(), String::new());
    assert_eq!(obj.request_path(), Some("/foo.txt".to_string()));
    let short = HttpObject::new("GET".to_string(), String::new());
    assert_eq!(short.request_path(), None);
}

#[test]
fn test_accept_is_valid() {
    let upper = HttpObject::new(String::new(), "Accept: */*".to_string());
    assert!(upper.accept_is_valid());
    let lower = HttpObject::new(String::new(), "accept: */*".to_string());
    assert!(lower.accept_is_valid());
    let other = HttpObject::new(String::new(), "Host: localhost".to_string());
    assert!(!other.accept_is_valid());
    let empty = HttpObject::new(String::new(), String::new());
    assert!(!empty.accept_is_valid());
}

#[test]
fn test_extract_types_single_group() {
    let obj = HttpObject::new(String::new(), "Accept: text/html,text/plain".to_string());
    assert_eq!(
        obj.extract_types(),
        Ok(vec!["text/html,text/plain".to_string()])
    );
}

#[test]
fn test_extract_types_weighted_groups() {
    let obj = HttpObject::new(
        String::new(),
        "Accept: text/html;q=0.9,text/plain;q=1.0".to_string(),
    );
    assert_eq!(
        obj.extract_types(),
        Ok(vec!["text/html".to_string(), "text/plain".to_string()])
    );
}

#[test]
fn test_weight_defaulting_without_q() {
    let obj = HttpObject::new(String::new(), "Accept: text/html,text/plain".to_string());
    let weighted = obj.weighted_mimes().expect("header should parse");
    assert_eq!(
        weighted,
        vec![("text/html".to_string(), 10), ("text/plain".to_string(), 10)]
    );
}

#[test]
fn test_weighted_mimes_with_weights() {
    let obj = HttpObject::new(
        String::new(),
        "Accept: text/html;q=0.9,text/plain;q=1.0".to_string(),
    );
    let weighted = obj.weighted_mimes().expect("header should parse");
    assert_eq!(
        weighted,
        vec![("text/html".to_string(), 9), ("text/plain".to_string(), 10)]
    );
}

#[test]
fn test_weighted_mimes_missing_accept() {
    let obj = HttpObject::new(String::new(), String::new());
    assert_eq!(
        obj.weighted_mimes(),
        Err("No accept attribute found".to_string())
    );
}

#[test]
fn test_weighted_mimes_header_without_value() {
    let obj = HttpObject::new(String::new(), "Accept:text/html".to_string());
    assert_eq!(
        obj.weighted_mimes(),
        Err("Malformed accept attribute".to_string())
    );
}

#[test]
fn test_weighted_mimes_bad_weight_field() {
    let obj = HttpObject::new(
        String::new(),
        "Accept: text/html;q=xy,text/plain;q=1.0".to_string(),
    );
    assert_eq!(
        obj.weighted_mimes(),
        Err("Malformed accept weights".to_string())
    );
}
