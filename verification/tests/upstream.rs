use axum::http::{HeaderMap, HeaderName, HeaderValue};
use decompressor::proxy::upstream::{
    build_upstream_url, filter_response_headers, try_filter_response_headers,
};
use decompressor::proxy::{AppState, ProxyError};

#[test]
fn upstream_url_joins_path_and_query() {
    assert_eq!(
        build_upstream_url("http://127.0.0.1:8080/", Some("/v1/chat/completions?foo=bar")).unwrap(),
        "http://127.0.0.1:8080/v1/chat/completions?foo=bar"
    );
    assert_eq!(
        build_upstream_url("http://upstream-service:8080/", None).unwrap(),
        "http://upstream-service:8080/"
    );
    assert_eq!(
        build_upstream_url("http://upstream/api/", Some("v1/models")).unwrap(),
        "http://upstream/api/v1/models"
    );
}

#[test]
fn upstream_url_reports_parse_errors() {
    match build_upstream_url("not a url", Some("/x")) {
        Err(ProxyError::InvalidUpstreamUrl(text)) => {
            assert_eq!(text, "relative URL without a base")
        }
        Err(other) => panic!("unexpected error: {}", other.message()),
        Ok(url) => panic!("unexpectedly built {url}"),
    }
}

#[test]
fn response_headers_lose_only_hop_by_hop_headers() {
    let mut upstream = HeaderMap::new();
    for (name, value) in [
        ("content-type", "text/plain; charset=utf-8"),
        ("x-upstream-response", "passthrough-ok"),
        ("cache-control", "no-store"),
        ("connection", "close"),
        ("transfer-encoding", "chunked"),
        ("set-cookie", "a=1"),
        ("set-cookie", "b=2"),
    ] {
        upstream.append(
            HeaderName::from_bytes(name.as_bytes()).unwrap(),
            HeaderValue::from_str(value).unwrap(),
        );
    }
    let filtered = filter_response_headers(&upstream);
    assert_eq!(filtered.get("content-type").unwrap(), "text/plain; charset=utf-8");
    assert_eq!(filtered.get("x-upstream-response").unwrap(), "passthrough-ok");
    assert_eq!(filtered.get("cache-control").unwrap(), "no-store");
    assert!(filtered.get("connection").is_none());
    assert!(filtered.get("transfer-encoding").is_none());
    let cookies: Vec<_> = filtered.get_all("set-cookie").iter().collect();
    assert_eq!(cookies, vec!["a=1", "b=2"]);
    assert_eq!(filtered.len(), 5);

    let again = filter_response_headers(&filtered);
    assert_eq!(again, filtered);
}

#[test]
fn app_state_keeps_its_base_url_and_client() {
    let state = AppState::new("http://127.0.0.1:8080/".to_string()).unwrap();
    assert_eq!(state.upstream_base_url(), "http://127.0.0.1:8080/");
    let client = reqwest::Client::new();
    let state = AppState::with_client(client, "http://upstream/".to_string()).unwrap();
    assert_eq!(state.upstream_base_url(), "http://upstream/");
    let _client: &reqwest::Client = state.client();
}

#[test]
fn app_state_from_client_result() {
    let state = AppState::from_client_result(Ok(reqwest::Client::new()), "http://u/".to_string());
    assert_eq!(state.unwrap().upstream_base_url(), "http://u/");
    let error = reqwest::Client::new().get("not a url").build().unwrap_err();
    let failed = AppState::from_client_result(Err(error), "http://u/".to_string());
    assert!(failed.is_err());
}

#[test]
fn network_path_targets_are_refused() {
    for target in ["//evil.test/x", " //evil.test/x", "/\t/evil.test/x", "\u{1}\n/\r\\evil.test"] {
        match build_upstream_url("http://127.0.0.1:8080/", Some(target)) {
            Err(ProxyError::InvalidUpstreamUrl(text)) => {
                assert_eq!(text, "request target names another host")
            }
            Err(other) => panic!("unexpected error: {}", other.message()),
            Ok(url) => panic!("{target:?} sent to {url}"),
        }
    }
    for target in ["/ /x", "/a//b", "\t/x"] {
        let url = build_upstream_url("http://127.0.0.1:8080/", Some(target)).unwrap();
        assert!(url.starts_with("http://127.0.0.1:8080/"), "{target:?} sent to {url}");
    }
}

#[test]
fn try_filter_response_headers_counts_values() {
    let mut upstream = HeaderMap::new();
    upstream.append("connection", HeaderValue::from_static("close"));
    upstream.append("x-a", HeaderValue::from_static("1"));
    let filtered = try_filter_response_headers(&upstream).unwrap();
    assert_eq!(filtered.len(), 1);
    let mut crowded = HeaderMap::new();
    for i in 0..4096 {
        crowded.append("x-many", HeaderValue::from_str(&i.to_string()).unwrap());
    }
    assert!(try_filter_response_headers(&crowded).is_none());
}
