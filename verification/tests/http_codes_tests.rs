//! Tests of the response encoder: status-line constants, gzip round
//! trips, and response heads.

use std::io::Read;

use anes_http::http_codes::bad_request;
use anes_http::http_codes::dec_string;
use anes_http::http_codes::decompress_body;
use anes_http::http_codes::not_found;
use anes_http::http_codes::ok;
use anes_http::http_codes::BAD_REQUEST;
use anes_http::http_codes::NOT_FOUND;
use anes_http::http_codes::OK;

fn gunzip(data: &[u8]) -> Vec<u8> {
    let mut decoder = flate2::read::GzDecoder::new(data);
    let mut out = Vec::new();
    decoder.read_to_end(&mut out).expect("invalid gzip stream");
    out
}

#[test]
fn bad_request_test_bad_request_contains_code() {
    assert!(
        BAD_REQUEST.contains("400 Bad Request"),
        "The bad request response does not contain the 400 Bad Request code"
    );
}

#[test]
fn not_found_test_bad_request_contains_code() {
    assert!(
        NOT_FOUND.contains("404 Not Found"),
        "The bad request response does not contain the 404 Not Found code"
    );
}

#[test]
fn test_ok_contains_code() {
    assert!(
        OK.contains("200 OK"),
        "The ok response does not contain the 200 OK code"
    );
}

#[test]
fn test_gzip_round_trip() {
    let data: Vec<u8> = b"some file content, large enough to compress \x00\x01\x02".to_vec();
    let response = ok(&data, "text/plain");
    assert_eq!(gunzip(&response.body), data);
    assert_eq!(decompress_body(&response.body), Some(data));
}

#[test]
fn test_gzip_round_trip_empty() {
    let data: Vec<u8> = Vec::new();
    let response = ok(&data, "text/plain");
    assert_eq!(gunzip(&response.body), data);
    assert_eq!(decompress_body(&response.body), Some(Vec::new()));
}

#[test]
fn test_ok_head_reports_compressed_length() {
    let data: Vec<u8> = b"<html><body>hi</body></html>".to_vec();
    let response = ok(&data, "text/html");
    assert!(response.head.contains("200 OK"));
    assert!(response.head.contains("Content-Type: text/html"));
    assert!(response.head.contains("Content-Encoding: gzip"));
    let expected = format!("Content-Length: {}\r\nContent-Type: text/html\r\n\r\n", response.body.len());
    assert!(response.head.ends_with(&expected));
}

#[test]
fn test_ok_head_has_exactly_one_content_type() {
    let data: Vec<u8> = b"body".to_vec();
    let response = ok(&data, "image/png");
    assert_eq!(response.head.matches("Content-Type: ").count(), 1);
    assert!(response.head.contains("Content-Type: image/png"));
}

#[test]
fn test_error_heads_carry_no_content_type() {
    assert!(!bad_request(None).head.contains("Content-Type"));
    assert!(!not_found(None).head.contains("Content-Type"));
}

#[test]
fn test_bad_request_default_body() {
    let response = bad_request(None);
    assert!(response.head.contains("400 Bad Request"));
    assert!(response.head.contains("Connection: close"));
    assert_eq!(gunzip(&response.body), b"400 - Bad Request".to_vec());
}

#[test]
fn test_not_found_default_body() {
    let response = not_found(None);
    assert!(response.head.contains("404 Not Found"));
    assert!(response.head.contains("Connection: close"));
    assert_eq!(gunzip(&response.body), b"404 - Not Found".to_vec());
}

#[test]
fn test_error_override_body_replaces_default() {
    let response = not_found(Some("<h1>custom page</h1>".to_string()));
    assert_eq!(gunzip(&response.body), b"<h1>custom page</h1>".to_vec());
    let expected = format!("Content-Length: {}\r\n\r\n", response.body.len());
    assert!(response.head.ends_with(&expected));
}

#[test]
fn test_dec_string() {
    assert_eq!(dec_string(0), "0");
    assert_eq!(dec_string(7), "7");
    assert_eq!(dec_string(10), "10");
    assert_eq!(dec_string(1234), "1234");
    assert_eq!(dec_string(1000000), "1000000");
}
