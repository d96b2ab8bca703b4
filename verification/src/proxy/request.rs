//! Everything the proxy decides about a request before it goes upstream: the
//! upstream URL, the method, the encoding of the body, and the headers.
use crate::proxy::encoding::{content_encoding_of, parse_request_content_encoding, RequestContentEncoding};
use crate::proxy::error::ProxyError;
use crate::proxy::header_map::{field_values, header_entries, header_map_len, MAX_HEADER_ENTRIES};
use crate::proxy::headers::{
    request_header_failure, sanitize_request_headers, upstream_request_values, HeaderFailure,
};
use crate::proxy::upstream::{build_upstream_url, upstream_url_of};
use crate::text::ascii_bytes;
use axum::http::{HeaderMap, Method};
use axum::http::method::InvalidMethod;
use vstd::prelude::*;
use vstd::string::*;

verus! {

/// A byte that `Method::from_bytes` accepts: a token character of RFC 9110.
pub open spec fn is_method_byte(b: u8) -> bool {
    b == 33 || (35 <= b && b <= 39) || b == 42 || b == 43 || b == 45 || b == 46 || (48 <= b
        && b <= 57) || (65 <= b && b <= 90) || (94 <= b && b <= 122) || b == 124 || b == 126
}

/// A method name that `Method::from_bytes` accepts: one or more token bytes.
pub open spec fn is_method_name(m: Seq<u8>) -> bool {
    &&& m.len() >= 1
    &&& forall|i: int| 0 <= i < m.len() ==> is_method_byte(#[trigger] m[i])
}

/// `Method::from_bytes` of the `http` crate, on the bytes of `src`: accepts
/// exactly the non-empty sequences of token bytes, and the method it makes
/// spells `src` (`Method::as_str` gives the text back unchanged).
#[verifier::external_body]
fn method_from_str(src: &str) -> (r: Result<String, InvalidMethod>)
    ensures
        r is Ok <==> is_method_name(src.spec_bytes()),
        r matches Ok(name) ==> name@ == src@,
{
    Method::from_bytes(src.as_bytes()).map(|method| method.as_str().to_string())
}

/// A request as it goes upstream.
pub struct UpstreamRequest {
    pub url: String,
    /// The request's method, as text that `Method::from_bytes` accepts.
    pub method: String,
    pub content_encoding: RequestContentEncoding,
    pub headers: HeaderMap,
}

/// What the proxy answers for a request to `path_and_query` with `method` and
/// `headers`, from the client at `client_ip`, when the upstream base URL is
/// `upstream_base_url`. The checks run in order: the URL, the method, the body's
/// encoding, then the headers; the first that fails is the answer.
pub open spec fn is_prepared_request(
    r: Result<UpstreamRequest, ProxyError>,
    upstream_base_url: Seq<char>,
    method: &str,
    path_and_query: Option<&str>,
    headers: HeaderMap,
    client_ip: &str,
) -> bool {
    ({
        let entries = header_entries(headers);
        let encoding_values = field_values(entries, ascii_bytes("content-encoding"@));
        let ip = client_ip.spec_bytes();
        match upstream_url_of(upstream_base_url, path_and_query) {
            Err(text) => r matches Err(ProxyError::InvalidUpstreamUrl(s)) && s@ == text,
            Ok(url) => if !is_method_name(method.spec_bytes()) {
                r matches Err(ProxyError::Method(_))
            } else {
                match content_encoding_of(encoding_values) {
                    Err(text) => r matches Err(ProxyError::UnsupportedContentEncoding(s))
                        && s@ == text,
                    Ok(encoding) => match request_header_failure(entries, encoding, ip) {
                        Some(HeaderFailure::InvalidValue) => r matches Err(
                            ProxyError::HeaderValue(_),
                        ),
                        Some(HeaderFailure::InvalidForwardedFor) => r matches Err(
                            ProxyError::InvalidForwardedHeaderValue(s),
                        ) && s@ == "x-forwarded-for"@,
                        None => r matches Ok(request) && request.url@ == url
                            && request.method@ == method@
                            && request.content_encoding == encoding && forall|
                            name: Seq<u8>,
                        |
                            #[trigger] field_values(header_entries(request.headers), name)
                                == upstream_request_values(entries, encoding, ip, name),
                    },
                }
            },
        }
    })
}

/// The upstream request for a request to `path_and_query` with `method` and
/// `headers`, from the client at `client_ip`.
pub fn prepare_upstream_request(
    upstream_base_url: &str,
    method: &str,
    path_and_query: Option<&str>,
    headers: &HeaderMap,
    client_ip: &str,
) -> (r: Result<UpstreamRequest, ProxyError>)
    requires
        header_entries(*headers).len() + 3 < MAX_HEADER_ENTRIES,
    ensures
        is_prepared_request(r, upstream_base_url@, method, path_and_query, *headers, client_ip),
{
    let url = build_upstream_url(upstream_base_url, path_and_query)?;
    let method = match method_from_str(method) {
        Ok(m) => m,
        Err(error) => {
            return Err(ProxyError::Method(error));
        },
    };
    let content_encoding = parse_request_content_encoding(headers)?;
    let headers = sanitize_request_headers(headers, content_encoding, client_ip)?;
    Ok(UpstreamRequest { url, method, content_encoding, headers })
}

/// The upstream request as `prepare_upstream_request` makes it, when `headers`
/// leaves the header map room for the forwarding headers; `None` when it holds
/// so many values that the map could not be counted on to grow.
pub fn try_prepare_upstream_request(
    upstream_base_url: &str,
    method: &str,
    path_and_query: Option<&str>,
    headers: &HeaderMap,
    client_ip: &str,
) -> (r: Option<Result<UpstreamRequest, ProxyError>>)
    ensures
        match r {
            None => header_entries(*headers).len() + 3 >= MAX_HEADER_ENTRIES,
            Some(prepared) => header_entries(*headers).len() + 3 < MAX_HEADER_ENTRIES
                && is_prepared_request(
                prepared,
                upstream_base_url@,
                method,
                path_and_query,
                *headers,
                client_ip,
            ),
        },
{
    let count = header_map_len(headers);
    if count >= MAX_HEADER_ENTRIES - 3 {
        return None;
    }
    Some(prepare_upstream_request(upstream_base_url, method, path_and_query, headers, client_ip))
}

} // verus!
