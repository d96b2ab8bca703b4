use axum::http::header::HeaderValue;
use axum::http::Method;
use decompressor::config::{listen_addr_or_default, upstream_url_from_var, ConfigError, TestConfig};
use decompressor::proxy::{ProxyError, UpstreamFailure};

fn upstream(is_body: bool, is_invalid_request_stream: bool, is_timeout: bool) -> ProxyError {
    ProxyError::Upstream(UpstreamFailure {
        message: "boom".to_string(),
        is_body,
        is_invalid_request_stream,
        is_timeout,
    })
}

#[test]
fn failures_map_to_statuses() {
    assert_eq!(ProxyError::UnsupportedContentEncoding("deflate".into()).status_code(), 415);
    assert_eq!(upstream(true, false, true).status_code(), 400);
    assert_eq!(upstream(false, true, false).status_code(), 400);
    assert_eq!(upstream(false, false, true).status_code(), 504);
    assert_eq!(upstream(false, false, false).status_code(), 502);
    assert_eq!(ProxyError::InvalidUpstreamUrl("x".into()).status_code(), 500);
    assert_eq!(ProxyError::InvalidForwardedHeaderValue("x".into()).status_code(), 500);
    let invalid_value = HeaderValue::from_bytes(b"\n").unwrap_err();
    assert_eq!(ProxyError::HeaderValue(invalid_value).status_code(), 500);
    let invalid_method = Method::from_bytes(b"BAD METHOD").unwrap_err();
    assert_eq!(ProxyError::Method(invalid_method).status_code(), 500);
}

#[test]
fn failures_have_messages() {
    assert_eq!(
        ProxyError::UnsupportedContentEncoding("deflate".into()).message(),
        "unsupported content-encoding: deflate"
    );
    assert_eq!(upstream(false, false, false).message(), "upstream request failed: boom");
    assert_eq!(
        ProxyError::InvalidUpstreamUrl("empty host".into()).message(),
        "failed to build upstream URL: empty host"
    );
    assert_eq!(
        ProxyError::InvalidForwardedHeaderValue("x-forwarded-for".into()).message(),
        "invalid forwarded header value: x-forwarded-for"
    );
    let invalid_value = HeaderValue::from_bytes(b"\n").unwrap_err();
    assert_eq!(
        ProxyError::HeaderValue(invalid_value).message(),
        "invalid header value: failed to parse header value"
    );
    let invalid_method = Method::from_bytes(b"BAD METHOD").unwrap_err();
    assert_eq!(
        ProxyError::Method(invalid_method).message(),
        "invalid request method: invalid HTTP method"
    );
}

#[test]
fn config_errors_have_messages() {
    assert_eq!(ConfigError::InvalidListenAddr.message(), "invalid DECOMPRESSOR_LISTEN_ADDR");
    assert_eq!(
        ConfigError::InvalidUpstreamUrl("empty host".into()).message(),
        "invalid DECOMPRESSOR_UPSTREAM_URL: empty host"
    );
    assert_eq!(
        ConfigError::MissingVar("TEST_MODEL").message(),
        "missing TEST_MODEL in environment"
    );
}

#[test]
fn listen_address_defaults() {
    assert_eq!(listen_addr_or_default(None), "0.0.0.0:5505");
    assert_eq!(listen_addr_or_default(Some("127.0.0.1:9000".into())), "127.0.0.1:9000");
}

#[test]
fn upstream_url_defaults_and_is_parsed() {
    assert_eq!(upstream_url_from_var(None).unwrap(), "http://127.0.0.1:8080/");
    assert_eq!(
        upstream_url_from_var(Some("http://upstream-service:8080".into())).unwrap(),
        "http://upstream-service:8080/"
    );
    match upstream_url_from_var(Some("upstream-service".into())) {
        Err(ConfigError::InvalidUpstreamUrl(text)) => {
            assert_eq!(text, "relative URL without a base")
        }
        _ => panic!("a relative URL was accepted"),
    }
}

#[test]
fn test_config_reports_first_missing_var() {
    let config = TestConfig::from_vars(
        Some("https://api.example".into()),
        Some("key".into()),
        Some("gpt-5.2".into()),
    );
    match config {
        Ok(config) => {
            assert_eq!(config.api_base, "https://api.example");
            assert_eq!(config.api_key, "key");
            assert_eq!(config.model, "gpt-5.2");
        }
        Err(_) => panic!("complete settings were refused"),
    }
    let missing = |result: Result<TestConfig, ConfigError>| match result {
        Err(ConfigError::MissingVar(name)) => name,
        _ => panic!("expected a missing variable"),
    };
    assert_eq!(missing(TestConfig::from_vars(None, None, None)), "TEST_API_BASE");
    assert_eq!(
        missing(TestConfig::from_vars(Some("a".into()), None, Some("m".into()))),
        "TEST_API_KEY"
    );
    assert_eq!(
        missing(TestConfig::from_vars(Some("a".into()), Some("k".into()), None)),
        "TEST_MODEL"
    );
}
