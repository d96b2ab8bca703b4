use axum::http::{HeaderMap, HeaderValue};
use decompressor::proxy::encoding::RequestContentEncoding;
use decompressor::proxy::request::{prepare_upstream_request, try_prepare_upstream_request};
use decompressor::proxy::ProxyError;

fn message(error: ProxyError) -> String {
    error.message()
}

#[test]
fn prepares_a_gzip_request() {
    let mut headers = HeaderMap::new();
    headers.insert("content-encoding", HeaderValue::from_static("GZIP"));
    headers.insert("content-length", HeaderValue::from_static("31"));
    headers.insert("x-proxy-test", HeaderValue::from_static("gzip"));
    let prepared = prepare_upstream_request(
        "http://127.0.0.1:8080/",
        "POST",
        Some("/v1/chat/completions?foo=bar"),
        &headers,
        "127.0.0.1",
    );
    let prepared = match prepared {
        Ok(p) => p,
        Err(error) => panic!("refused: {}", message(error)),
    };
    assert_eq!(prepared.url, "http://127.0.0.1:8080/v1/chat/completions?foo=bar");
    assert_eq!(prepared.method, "POST");
    assert_eq!(prepared.content_encoding, RequestContentEncoding::Gzip);
    assert!(prepared.headers.get("content-encoding").is_none());
    assert!(prepared.headers.get("content-length").is_none());
    assert_eq!(prepared.headers.get("x-proxy-test").unwrap(), "gzip");
    assert_eq!(prepared.headers.get("x-forwarded-for").unwrap(), "127.0.0.1");
    assert_eq!(prepared.headers.get("x-forwarded-proto").unwrap(), "http");
}

#[test]
fn extension_methods_pass_and_broken_ones_are_refused() {
    let headers = HeaderMap::new();
    let prepared = prepare_upstream_request("http://u/", "PURGE", None, &headers, "10.0.0.1");
    match prepared {
        Ok(p) => {
            assert_eq!(p.method, "PURGE");
            assert_eq!(p.url, "http://u/");
        }
        Err(error) => panic!("refused: {}", message(error)),
    }
    match prepare_upstream_request("http://u/", "BAD METHOD", None, &headers, "10.0.0.1") {
        Err(ProxyError::Method(_)) => {}
        Err(other) => panic!("unexpected error: {}", message(other)),
        Ok(_) => panic!("a method with a space was accepted"),
    }
}

#[test]
fn url_is_checked_before_the_encoding() {
    let mut headers = HeaderMap::new();
    headers.insert("content-encoding", HeaderValue::from_static("deflate"));
    match prepare_upstream_request("not a url", "GET", Some("/"), &headers, "10.0.0.1") {
        Err(ProxyError::InvalidUpstreamUrl(_)) => {}
        Err(other) => panic!("unexpected error: {}", message(other)),
        Ok(_) => panic!("an invalid base URL was accepted"),
    }
    match prepare_upstream_request("http://u/", "GET", Some("/"), &headers, "10.0.0.1") {
        Err(error) => {
            assert_eq!(error.status_code(), 415);
            assert_eq!(message(error), "unsupported content-encoding: deflate");
        }
        Ok(_) => panic!("deflate was accepted"),
    }
}

#[test]
fn head_and_options_keep_their_method() {
    let headers = HeaderMap::new();
    for method in ["HEAD", "OPTIONS", "GET", "DELETE"] {
        match prepare_upstream_request("http://u/", method, Some("/method-check"), &headers, "10.0.0.1") {
            Ok(p) => {
                assert_eq!(p.method, method);
                assert_eq!(p.url, "http://u/method-check");
            }
            Err(error) => panic!("refused: {}", message(error)),
        }
    }
}

#[test]
fn requests_naming_another_host_are_refused() {
    let headers = HeaderMap::new();
    for target in ["//evil.test/x", "/\\evil.test/x", "\\/evil.test"] {
        match prepare_upstream_request("http://127.0.0.1:8080/", "GET", Some(target), &headers, "10.0.0.1") {
            Err(ProxyError::InvalidUpstreamUrl(text)) => {
                assert_eq!(text, "request target names another host")
            }
            Err(other) => panic!("unexpected error: {}", message(other)),
            Ok(p) => panic!("{target} was sent to {}", p.url),
        }
    }
    match prepare_upstream_request("http://127.0.0.1:8080/", "GET", Some("/a//b"), &headers, "10.0.0.1") {
        Ok(p) => assert_eq!(p.url, "http://127.0.0.1:8080/a//b"),
        Err(error) => panic!("refused: {}", message(error)),
    }
}

#[test]
fn try_prepare_needs_room_for_forwarding_headers() {
    let mut headers = HeaderMap::new();
    headers.insert("accept", HeaderValue::from_static("*/*"));
    match try_prepare_upstream_request("http://u/", "GET", None, &headers, "10.0.0.1") {
        Some(Ok(p)) => assert_eq!(p.headers.get("accept").unwrap(), "*/*"),
        Some(Err(error)) => panic!("refused: {}", message(error)),
        None => panic!("a small request found no room"),
    }
    let mut crowded = HeaderMap::new();
    for i in 0..4093 {
        crowded.append("x-many", HeaderValue::from_str(&i.to_string()).unwrap());
    }
    assert!(try_prepare_upstream_request("http://u/", "GET", None, &crowded, "10.0.0.1").is_none());
}
