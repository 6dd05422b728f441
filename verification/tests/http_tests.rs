//! Tests of request tokenization, path-to-pattern parsing, candidate
//! scoring and best-match selection, plus request scenarios run through
//! the library's pipeline.

use std::io::Read;

use anes_http::http::best_match;
use anes_http::http::default_weight;
use anes_http::http::extension_of;
use anes_http::http::file_browser;
use anes_http::http::find_weight_for_mime;
use anes_http::http::parse_filepath;
use anes_http::http::request_tokenizer;
use anes_http::http::select_file;
use anes_http::http_codes::bad_request;
use anes_http::http_codes::not_found;
use anes_http::http_codes::ok;

fn gunzip(data: &[u8]) -> Vec<u8> {
    let mut decoder = flate2::read::GzDecoder::new(data);
    let mut out = Vec::new();
    decoder.read_to_end(&mut out).expect("invalid gzip stream");
    out
}

#[test]
fn test_request_tokenizer_picks_lines() {
    let raw = "GET / HTTP/1.1\r\nHost: localhost\r\nAccept: text/html\r\n\r\n";
    let obj = request_tokenizer(raw);
    assert_eq!(obj.request, "GET / HTTP/1.1");
    assert_eq!(obj.accept, "Accept: text/html");
}

#[test]
fn test_request_tokenizer_takes_first_line_as_request_line() {
    let raw = "X\r\nGET Y HTTP/1.1\r\nAccept: z\r\n\r\n";
    let obj = request_tokenizer(raw);
    assert_eq!(obj.request, "X");
    assert_eq!(obj.accept, "Accept: z");
    assert!(!obj.is_http());
}

#[test]
fn test_request_tokenizer_keeps_non_get_request_line() {
    let raw = "POST /x HTTP/1.1\r\nAccept: text/html\r\n\r\n";
    let obj = request_tokenizer(raw);
    assert_eq!(obj.request, "POST /x HTTP/1.1");
    assert!(obj.is_http());
}

#[test]
fn test_request_tokenizer_without_accept() {
    let raw = "GET / HTTP/1.1\r\nHost: localhost\r\n\r\n";
    let obj = request_tokenizer(raw);
    assert_eq!(obj.request, "GET / HTTP/1.1");
    assert_eq!(obj.accept, "");
}

#[test]
fn test_parse_filepath_root() {
    assert_eq!(parse_filepath("/"), "/index.*");
}

#[test]
fn test_parse_filepath_exact_name() {
    assert_eq!(parse_filepath("/missing.txt"), "/missing.txt");
}

#[test]
fn test_parse_filepath_prefix() {
    assert_eq!(parse_filepath("/about"), "/about*");
}

#[test]
fn test_extension_of() {
    assert_eq!(extension_of("public/index.html"), Some("html".to_string()));
    assert_eq!(extension_of("public/archive.tar.gz"), Some("gz".to_string()));
    assert_eq!(extension_of("public/noext"), None);
    assert_eq!(extension_of("public/.hidden"), None);
    assert_eq!(extension_of("public/v1.2/readme"), None);
}

#[test]
fn test_default_weight_uses_star_entry() {
    let mimes = vec![("text/html".to_string(), 9), ("*/*".to_string(), 3)];
    assert_eq!(default_weight(&mimes), 3);
    let no_star = vec![("text/html".to_string(), 9)];
    assert_eq!(default_weight(&no_star), 0);
}

#[test]
fn test_find_weight_for_mime_matches_subtype() {
    let mimes = vec![("*/*".to_string(), 3), ("text/html".to_string(), 9)];
    assert_eq!(find_weight_for_mime("html", &mimes), Some(9));
    assert_eq!(find_weight_for_mime("png", &mimes), None);
}

#[test]
fn test_best_match_strict_greater_tie_rule() {
    let candidates = vec![
        ("public/a.txt".to_string(), 5),
        ("public/b.txt".to_string(), 9),
        ("public/c.txt".to_string(), 9),
    ];
    assert_eq!(best_match(&candidates), "public/b.txt");
}

#[test]
fn test_select_file_empty_set_is_none() {
    let paths: Vec<String> = Vec::new();
    let mimes = vec![("text/html".to_string(), 10)];
    assert_eq!(select_file(&paths, &mimes), None);
}

#[test]
fn test_select_file_html_candidate() {
    let paths = vec!["public/index.html".to_string()];
    let mimes = vec![("text/html".to_string(), 10)];
    assert_eq!(
        select_file(&paths, &mimes),
        Some(("public/index.html".to_string(), "text/html".to_string()))
    );
}

#[test]
fn test_select_file_falls_back_to_star_weight_and_mime() {
    let paths = vec!["public/img.png".to_string()];
    let mimes = vec![("*/*".to_string(), 1)];
    assert_eq!(
        select_file(&paths, &mimes),
        Some(("public/img.png".to_string(), "*/*".to_string()))
    );
}

#[test]
fn test_select_file_prefers_heavier_extension() {
    let paths = vec![
        "public/index.txt".to_string(),
        "public/index.html".to_string(),
    ];
    let mimes = vec![("text/html".to_string(), 9), ("text/plain".to_string(), 5)];
    let (path, mime) = select_file(&paths, &mimes).expect("a candidate must win");
    assert_eq!(path, "public/index.html");
    assert_eq!(mime, "text/html");
}

#[test]
fn test_file_browser_missing_file_is_none() {
    let mimes = vec![("*/*".to_string(), 10)];
    assert_eq!(file_browser("/missing.txt", &mimes), None);
}

#[test]
fn test_scenario_index_page_ok() {
    let raw = "GET / HTTP/1.1\r\nAccept: text/html;q=1.0\r\n\r\n";
    let obj = request_tokenizer(raw);
    assert!(obj.is_http());
    assert_eq!(obj.request_path(), Some("/".to_string()));
    let mimes = obj.weighted_mimes().expect("header should parse");
    assert_eq!(mimes, vec![("text/html".to_string(), 10)]);
    assert_eq!(parse_filepath("/"), "/index.*");
    let paths = vec!["public/index.html".to_string()];
    let (path, mime) = select_file(&paths, &mimes).expect("the index file must be found");
    assert_eq!(path, "public/index.html");
    assert_eq!(mime, "text/html");
    let content: Vec<u8> = b"<html><body>index</body></html>".to_vec();
    let response = ok(&content, &mime);
    assert!(response.head.contains("200 OK"));
    assert!(response.head.contains("Content-Type: text/html"));
    assert_eq!(gunzip(&response.body), content);
}

#[test]
fn test_plan_request_accepts_valid_request() {
    let raw = "GET /page.html HTTP/1.1\r\nAccept: text/html;q=0.9,text/plain;q=1.0\r\n\r\n";
    let (path, mimes) = anes_http::http::plan_request(raw).expect("the request is valid");
    assert_eq!(path, "/page.html");
    assert_eq!(
        mimes,
        vec![("text/html".to_string(), 9), ("text/plain".to_string(), 10)]
    );
}

#[test]
fn test_plan_request_rejects_bad_line() {
    assert_eq!(
        anes_http::http::plan_request("NOT HTTP DATA\r\n\r\n"),
        Err("This is not an http request".to_string())
    );
}

#[test]
fn test_plan_request_rejects_missing_accept() {
    assert_eq!(
        anes_http::http::plan_request("GET / HTTP/1.1\r\nHost: x\r\n\r\n"),
        Err("No accept attribute found".to_string())
    );
}

#[test]
fn test_malformed_request_triggers_bad_request() {
    let obj = request_tokenizer("NOT HTTP DATA\r\n\r\n");
    assert!(!obj.is_http());
    let response = bad_request(None);
    assert!(
        response.head.contains("400 Bad Request"),
        "The response does not contain the expected 400 Bad Request status"
    );
}

#[test]
fn test_scenario_missing_file_not_found() {
    let raw = "GET /missing.txt HTTP/1.1\r\nAccept: */*;q=0.5\r\n\r\n";
    let obj = request_tokenizer(raw);
    assert!(obj.is_http());
    let path = obj.request_path().expect("the request line has a path");
    let mimes = obj.weighted_mimes().expect("header should parse");
    let resolved = file_browser(&path, &mimes);
    assert_eq!(resolved, None);
    let response = not_found(None);
    assert!(response.head.contains("404 Not Found"));
}
