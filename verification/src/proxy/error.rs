//! Why a request could not be proxied, the status the client is answered with,
//! and the text of the answer.
use axum::http::header::InvalidHeaderValue;
use axum::http::method::InvalidMethod;
use vstd::prelude::*;
use vstd::string::*;

verus! {

#[verifier::external_type_specification]
#[verifier::external_body]
pub struct ExInvalidMethod(InvalidMethod);

/// What is known of a failed exchange with the upstream service.
#[derive(Debug)]
pub struct UpstreamFailure {
    /// The text of the failure.
    pub message: String,
    /// The request or response body failed.
    pub is_body: bool,
    /// Reading the client's request body failed on data that could not be
    /// decoded or ended too early.
    pub is_invalid_request_stream: bool,
    /// The exchange timed out.
    pub is_timeout: bool,
}

#[derive(Debug)]
pub enum ProxyError {
    HeaderValue(InvalidHeaderValue),
    InvalidForwardedHeaderValue(String),
    InvalidUpstreamUrl(String),
    Method(InvalidMethod),
    UnsupportedContentEncoding(String),
    Upstream(UpstreamFailure),
}

/// The HTTP status that answers each failure: 415 for an encoding the proxy
/// cannot decode; 400 when the request body broke; 504 when the upstream timed
/// out; 502 for other upstream failures; 500 for the proxy's own faults.
pub open spec fn status_of(error: ProxyError) -> u16 {
    match error {
        ProxyError::UnsupportedContentEncoding(_) => 415,
        ProxyError::Upstream(failure) => {
            if failure.is_body || failure.is_invalid_request_stream {
                400
            } else if failure.is_timeout {
                504
            } else {
                502
            }
        },
        ProxyError::HeaderValue(_) => 500,
        ProxyError::InvalidForwardedHeaderValue(_) => 500,
        ProxyError::InvalidUpstreamUrl(_) => 500,
        ProxyError::Method(_) => 500,
    }
}

/// The text that answers each failure.
pub open spec fn message_of(error: ProxyError) -> Seq<char> {
    match error {
        ProxyError::HeaderValue(_) => "invalid header value: "@ + "failed to parse header value"@,
        ProxyError::InvalidForwardedHeaderValue(name) => "invalid forwarded header value: "@
            + name@,
        ProxyError::InvalidUpstreamUrl(text) => "failed to build upstream URL: "@ + text@,
        ProxyError::Method(_) => "invalid request method: "@ + "invalid HTTP method"@,
        ProxyError::UnsupportedContentEncoding(value) => "unsupported content-encoding: "@
            + value@,
        ProxyError::Upstream(failure) => "upstream request failed: "@ + failure.message@,
    }
}

/// The `Display` text of `InvalidHeaderValue`, which the `http` crate writes as
/// the fixed text "failed to parse header value".
#[verifier::external_body]
fn invalid_header_value_text(error: &InvalidHeaderValue) -> (r: String)
    ensures
        r@ == "failed to parse header value"@,
{
    format!("{error}")
}

/// The `Display` text of `InvalidMethod`, which the `http` crate writes as the
/// fixed text "invalid HTTP method".
#[verifier::external_body]
fn invalid_method_text(error: &InvalidMethod) -> (r: String)
    ensures
        r@ == "invalid HTTP method"@,
{
    format!("{error}")
}

impl ProxyError {
    /// The HTTP status of the answer to the client.
    pub fn status_code(&self) -> (r: u16)
        ensures
            r == status_of(*self),
    {
        match self {
            ProxyError::UnsupportedContentEncoding(_) => 415,
            ProxyError::Upstream(failure) => {
                if failure.is_body || failure.is_invalid_request_stream {
                    400
                } else if failure.is_timeout {
                    504
                } else {
                    502
                }
            },
            ProxyError::HeaderValue(_) => 500,
            ProxyError::InvalidForwardedHeaderValue(_) => 500,
            ProxyError::InvalidUpstreamUrl(_) => 500,
            ProxyError::Method(_) => 500,
        }
    }

    /// The text of the answer to the client.
    pub fn message(&self) -> (r: String)
        ensures
            r@ == message_of(*self),
    {
        match self {
            ProxyError::HeaderValue(error) => {
                let mut text = String::from_str("invalid header value: ");
                text.append(invalid_header_value_text(error).as_str());
                text
            },
            ProxyError::InvalidForwardedHeaderValue(name) => {
                let mut text = String::from_str("invalid forwarded header value: ");
                text.append(name.as_str());
                text
            },
            ProxyError::InvalidUpstreamUrl(error) => {
                let mut text = String::from_str("failed to build upstream URL: ");
                text.append(error.as_str());
                text
            },
            ProxyError::Method(error) => {
                let mut text = String::from_str("invalid request method: ");
                text.append(invalid_method_text(error).as_str());
                text
            },
            ProxyError::UnsupportedContentEncoding(value) => {
                let mut text = String::from_str("unsupported content-encoding: ");
                text.append(value.as_str());
                text
            },
            ProxyError::Upstream(failure) => {
                let mut text = String::from_str("upstream request failed: ");
                text.append(failure.message.as_str());
                text
            },
        }
    }
}

} // verus!
