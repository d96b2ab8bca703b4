use axum::http::header::CONTENT_ENCODING;
use axum::http::{HeaderMap, HeaderValue};
use decompressor::proxy::encoding::{
    parse_request_content_encoding, parse_value_tokens, RequestContentEncoding,
};
use decompressor::proxy::ProxyError;

fn headers_with_encodings(values: &[&[u8]]) -> HeaderMap {
    let mut headers = HeaderMap::new();
    for value in values {
        headers.append(CONTENT_ENCODING, HeaderValue::from_bytes(value).unwrap());
    }
    headers
}

fn unsupported_text(result: Result<RequestContentEncoding, ProxyError>) -> String {
    match result {
        Err(ProxyError::UnsupportedContentEncoding(text)) => text,
        Err(other) => panic!("unexpected error: {}", other.message()),
        Ok(encoding) => panic!("unexpectedly accepted {}", encoding.as_str()),
    }
}

#[test]
fn missing_content_encoding_is_identity() {
    let headers = HeaderMap::new();
    assert_eq!(
        parse_request_content_encoding(&headers).unwrap(),
        RequestContentEncoding::Identity
    );
}

#[test]
fn identity_gzip_and_br_are_recognised() {
    let cases: [(&[u8], RequestContentEncoding); 3] = [
        (b"identity", RequestContentEncoding::Identity),
        (b"gzip", RequestContentEncoding::Gzip),
        (b"br", RequestContentEncoding::Brotli),
    ];
    for (value, expected) in cases {
        let headers = headers_with_encodings(&[value]);
        assert_eq!(parse_request_content_encoding(&headers).unwrap(), expected);
    }
}

#[test]
fn encoding_tokens_ignore_case_space_and_empty_pieces() {
    let headers = headers_with_encodings(&[b"  GZip\t,, "]);
    assert_eq!(
        parse_request_content_encoding(&headers).unwrap(),
        RequestContentEncoding::Gzip
    );
    let headers = headers_with_encodings(&[b"", b" BR "]);
    assert_eq!(
        parse_request_content_encoding(&headers).unwrap(),
        RequestContentEncoding::Brotli
    );
    let headers = headers_with_encodings(&[b" , "]);
    assert_eq!(
        parse_request_content_encoding(&headers).unwrap(),
        RequestContentEncoding::Identity
    );
}

#[test]
fn unsupported_encoding_is_refused_with_its_tokens() {
    let headers = headers_with_encodings(&[b"deflate"]);
    assert_eq!(unsupported_text(parse_request_content_encoding(&headers)), "deflate");
}

#[test]
fn stacked_encodings_are_refused_in_order() {
    let headers = headers_with_encodings(&[b"gzip, BR"]);
    assert_eq!(unsupported_text(parse_request_content_encoding(&headers)), "gzip, br");
    let headers = headers_with_encodings(&[b"gzip", b"identity ,x-custom"]);
    assert_eq!(
        unsupported_text(parse_request_content_encoding(&headers)),
        "gzip, identity, x-custom"
    );
}

#[test]
fn unreadable_encoding_value_is_refused() {
    let headers = headers_with_encodings(&[b"gzip", &[0x67, 0x7a, 0x80]]);
    assert_eq!(unsupported_text(parse_request_content_encoding(&headers)), "<non-utf8>");
}

#[test]
fn encoding_labels() {
    assert_eq!(RequestContentEncoding::Identity.as_str(), "identity");
    assert_eq!(RequestContentEncoding::Gzip.as_str(), "gzip");
    assert_eq!(RequestContentEncoding::Brotli.as_str(), "br");
}

#[test]
fn label_is_read_back_as_its_encoding() {
    for encoding in [
        RequestContentEncoding::Identity,
        RequestContentEncoding::Gzip,
        RequestContentEncoding::Brotli,
    ] {
        let headers = headers_with_encodings(&[encoding.as_str().as_bytes()]);
        assert_eq!(parse_request_content_encoding(&headers).unwrap(), encoding);
    }
}

#[test]
fn uppercase_value_reads_like_lowercase() {
    let upper = headers_with_encodings(&[b"GZIP, Deflate"]);
    let lower = headers_with_encodings(&[b"gzip, deflate"]);
    assert_eq!(
        unsupported_text(parse_request_content_encoding(&upper)),
        unsupported_text(parse_request_content_encoding(&lower))
    );
}

#[test]
fn value_tokens_split_trim_and_lower() {
    let tokens = parse_value_tokens(b" A ,b,, C\t");
    assert_eq!(tokens, vec![b"a".to_vec(), b"b".to_vec(), b"c".to_vec()]);
    assert!(parse_value_tokens(b"").is_empty());
}
