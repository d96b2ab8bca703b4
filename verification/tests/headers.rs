use axum::http::{HeaderMap, HeaderName, HeaderValue};
use decompressor::proxy::encoding::RequestContentEncoding;
use decompressor::proxy::headers::{
    append_csv_header_value, apply_forwarding_headers, clone_header_value, is_hop_by_hop_header,
    sanitize_request_headers, try_sanitize_request_headers,
};
use decompressor::proxy::ProxyError;

fn map(pairs: &[(&str, &[u8])]) -> HeaderMap {
    let mut headers = HeaderMap::new();
    for (name, value) in pairs {
        headers.append(
            HeaderName::from_bytes(name.as_bytes()).unwrap(),
            HeaderValue::from_bytes(value).unwrap(),
        );
    }
    headers
}

fn values(headers: &HeaderMap, name: &str) -> Vec<Vec<u8>> {
    headers
        .get_all(name)
        .iter()
        .map(|value| value.as_bytes().to_vec())
        .collect()
}

#[test]
fn hop_by_hop_headers_are_recognised() {
    for name in [
        "connection",
        "keep-alive",
        "proxy-authenticate",
        "proxy-authorization",
        "te",
        "trailer",
        "transfer-encoding",
        "upgrade",
    ] {
        assert!(is_hop_by_hop_header(name.as_bytes()), "{name}");
    }
    for name in ["host", "content-length", "content-encoding", "tee", "x-upgrade"] {
        assert!(!is_hop_by_hop_header(name.as_bytes()), "{name}");
    }
}

#[test]
fn sanitize_drops_connection_headers_and_adds_forwarding() {
    let original = map(&[
        ("host", b"public.example.test"),
        ("connection", b"keep-alive"),
        ("keep-alive", b"timeout=5"),
        ("transfer-encoding", b"chunked"),
        ("content-length", b"42"),
        ("content-type", b"application/json"),
        ("x-proxy-test", b"plain"),
        ("x-proxy-test", b"second"),
    ]);
    let headers =
        sanitize_request_headers(&original, RequestContentEncoding::Identity, "127.0.0.1").unwrap();
    for dropped in ["connection", "keep-alive", "transfer-encoding", "content-length"] {
        assert!(values(&headers, dropped).is_empty(), "{dropped}");
    }
    assert_eq!(values(&headers, "host"), vec![b"public.example.test".to_vec()]);
    assert_eq!(values(&headers, "content-type"), vec![b"application/json".to_vec()]);
    assert_eq!(
        values(&headers, "x-proxy-test"),
        vec![b"plain".to_vec(), b"second".to_vec()]
    );
    assert_eq!(values(&headers, "x-forwarded-for"), vec![b"127.0.0.1".to_vec()]);
    assert_eq!(values(&headers, "x-forwarded-proto"), vec![b"http".to_vec()]);
    assert_eq!(
        values(&headers, "x-forwarded-host"),
        vec![b"public.example.test".to_vec()]
    );
    assert_eq!(headers.len(), 7);
}

#[test]
fn sanitize_keeps_content_encoding_only_for_plain_bodies() {
    let original = map(&[("content-encoding", b"identity")]);
    let plain =
        sanitize_request_headers(&original, RequestContentEncoding::Identity, "10.0.0.2").unwrap();
    assert_eq!(values(&plain, "content-encoding"), vec![b"identity".to_vec()]);

    let original = map(&[("content-encoding", b"gzip")]);
    let decoded =
        sanitize_request_headers(&original, RequestContentEncoding::Gzip, "10.0.0.2").unwrap();
    assert!(values(&decoded, "content-encoding").is_empty());

    let original = map(&[("content-encoding", b"br")]);
    let decoded =
        sanitize_request_headers(&original, RequestContentEncoding::Brotli, "10.0.0.2").unwrap();
    assert!(values(&decoded, "content-encoding").is_empty());
}

#[test]
fn sanitize_extends_the_forwarded_for_chain() {
    let original = map(&[
        ("x-forwarded-for", b"203.0.113.7"),
        ("x-forwarded-for", b"198.51.100.1"),
        ("x-forwarded-proto", b"https"),
        ("x-forwarded-host", b"outer.example"),
        ("host", b"inner.example"),
    ]);
    let headers =
        sanitize_request_headers(&original, RequestContentEncoding::Identity, "127.0.0.1").unwrap();
    assert_eq!(
        values(&headers, "x-forwarded-for"),
        vec![b"203.0.113.7, 127.0.0.1".to_vec()]
    );
    assert_eq!(values(&headers, "x-forwarded-proto"), vec![b"https".to_vec()]);
    assert_eq!(values(&headers, "x-forwarded-host"), vec![b"outer.example".to_vec()]);
    assert_eq!(values(&headers, "host"), vec![b"inner.example".to_vec()]);
}

#[test]
fn sanitize_without_host_sets_no_forwarded_host() {
    let original = map(&[("accept", b"*/*")]);
    let headers =
        sanitize_request_headers(&original, RequestContentEncoding::Identity, "::1").unwrap();
    assert!(values(&headers, "x-forwarded-host").is_empty());
    assert_eq!(values(&headers, "x-forwarded-for"), vec![b"::1".to_vec()]);
    assert_eq!(values(&headers, "accept"), vec![b"*/*".to_vec()]);
}

#[test]
fn sanitize_refuses_unreadable_forwarded_for() {
    let original = map(&[("x-forwarded-for", &[0x31, 0x80])]);
    match sanitize_request_headers(&original, RequestContentEncoding::Identity, "127.0.0.1") {
        Err(ProxyError::InvalidForwardedHeaderValue(name)) => assert_eq!(name, "x-forwarded-for"),
        Err(other) => panic!("unexpected error: {}", other.message()),
        Ok(_) => panic!("unreadable x-forwarded-for was accepted"),
    }
}

#[test]
fn sanitize_refuses_invalid_client_address_text() {
    let original = HeaderMap::new();
    match sanitize_request_headers(&original, RequestContentEncoding::Identity, "bad\naddress") {
        Err(ProxyError::HeaderValue(_)) => {}
        Err(other) => panic!("unexpected error: {}", other.message()),
        Ok(_) => panic!("a control character was accepted"),
    }
}

#[test]
fn csv_values_are_joined_with_comma_space() {
    assert_eq!(append_csv_header_value(None, "1.2.3.4").unwrap(), b"1.2.3.4".to_vec());
    assert_eq!(
        append_csv_header_value(Some(b"a, b"), "c").unwrap(),
        b"a, b, c".to_vec()
    );
    assert!(matches!(
        append_csv_header_value(Some(&[0x7f]), "c"),
        Err(ProxyError::InvalidForwardedHeaderValue(_))
    ));
}

#[test]
fn header_values_are_checked_when_cloned() {
    assert_eq!(clone_header_value(b"ok\tvalue").unwrap(), b"ok\tvalue".to_vec());
    assert_eq!(clone_header_value(&[0xff, 0x20]).unwrap(), vec![0xff, 0x20]);
    assert!(matches!(clone_header_value(b"bad\r\n"), Err(ProxyError::HeaderValue(_))));
    assert!(matches!(clone_header_value(&[0x7f]), Err(ProxyError::HeaderValue(_))));
}

#[test]
fn forwarded_values_are_rebuilt_unmarked() {
    let mut original = HeaderMap::new();
    let mut secret = HeaderValue::from_static("Bearer token");
    secret.set_sensitive(true);
    original.append("authorization", secret);
    let headers =
        sanitize_request_headers(&original, RequestContentEncoding::Identity, "127.0.0.1").unwrap();
    let forwarded = headers.get("authorization").unwrap();
    assert_eq!(forwarded, "Bearer token");
    assert!(!forwarded.is_sensitive());
}

#[test]
fn forwarding_headers_extend_the_map_they_are_given() {
    let mut headers = map(&[("x-forwarded-for", b"10.0.0.1"), ("accept", b"*/*")]);
    let original = map(&[("host", b"a.test")]);
    apply_forwarding_headers(&mut headers, &original, "127.0.0.1").unwrap();
    assert_eq!(values(&headers, "x-forwarded-for"), vec![b"10.0.0.1, 127.0.0.1".to_vec()]);
    assert_eq!(values(&headers, "x-forwarded-proto"), vec![b"http".to_vec()]);
    assert_eq!(values(&headers, "x-forwarded-host"), vec![b"a.test".to_vec()]);
    assert_eq!(values(&headers, "accept"), vec![b"*/*".to_vec()]);
    assert_eq!(headers.len(), 4);
}

#[test]
fn forwarding_failure_leaves_the_map_alone() {
    let mut headers = map(&[("x-forwarded-for", &[0x61, 0xff])]);
    let before = headers.clone();
    let original = map(&[("host", b"a.test")]);
    match apply_forwarding_headers(&mut headers, &original, "127.0.0.1") {
        Err(ProxyError::InvalidForwardedHeaderValue(name)) => assert_eq!(name, "x-forwarded-for"),
        Err(other) => panic!("unexpected error: {}", other.message()),
        Ok(()) => panic!("unreadable x-forwarded-for was accepted"),
    }
    assert_eq!(headers, before);
}

#[test]
fn try_sanitize_needs_room() {
    let original = map(&[("accept", b"*/*")]);
    let sanitized = try_sanitize_request_headers(&original, RequestContentEncoding::Identity, "::1");
    assert_eq!(values(&sanitized.unwrap().unwrap(), "accept"), vec![b"*/*".to_vec()]);
    let mut crowded = HeaderMap::new();
    for i in 0..4093 {
        crowded.append("x-many", HeaderValue::from_str(&i.to_string()).unwrap());
    }
    assert!(try_sanitize_request_headers(&crowded, RequestContentEncoding::Identity, "::1").is_none());
}
